//! Properties of the tree-sitter query texts that hold for every argument:
//! where the arguments go, which filters a query holds, and how two queries
//! relate once white space is set aside.

use vstd::prelude::*;
use crate::text::{has_infix, has_prefix, has_suffix};
use crate::treesitter_queries::{
    extends_query, job_needs_query, job_variable_query, root_node_query, ALL_ROOT_NODES_QUERY,
    EXTENDS_QUERY_HEAD, EXTENDS_QUERY_TAIL, JOB_NEEDS_QUERY_HEAD, JOB_NEEDS_QUERY_TAIL,
    JOB_VARIABLE_QUERY_HEAD, JOB_VARIABLE_QUERY_MIDDLE, JOB_VARIABLE_QUERY_TAIL,
    ROOT_NODE_AT_POSITION_QUERY, ROOT_NODE_QUERY_HEAD, ROOT_NODE_QUERY_TAIL,
};

verus! {

broadcast use vstd::set::group_set_axioms;

/// An ASCII white-space character.
pub open spec fn is_space(c: char) -> bool {
    c == ' ' || c == '\n' || c == '\t' || c == '\r' || c == '\x0B' || c == '\x0C'
}

/// `s` without its trailing white space.
pub open spec fn trim_space_end(s: Seq<char>) -> Seq<char>
    decreases s.len(),
{
    if s.len() > 0 && is_space(s.last()) {
        trim_space_end(s.drop_last())
    } else {
        s
    }
}

/// `s` without its leading white space.
pub open spec fn trim_space_start(s: Seq<char>) -> Seq<char>
    decreases s.len(),
{
    if s.len() > 0 && is_space(s[0]) {
        trim_space_start(s.drop_first())
    } else {
        s
    }
}

/// `s` without white space at either end.
pub open spec fn trim_space(s: Seq<char>) -> Seq<char> {
    trim_space_start(trim_space_end(s))
}

/// `s` with every white-space character removed.
pub open spec fn strip_space(s: Seq<char>) -> Seq<char>
    decreases s.len(),
{
    if s.len() == 0 {
        s
    } else if is_space(s.last()) {
        strip_space(s.drop_last())
    } else {
        strip_space(s.drop_last()).push(s.last())
    }
}

/// `pattern` occurs in `s` at position `i`.
pub open spec fn occurs_at(s: Seq<char>, pattern: Seq<char>, i: int) -> bool {
    0 <= i && i + pattern.len() <= s.len() && s.subrange(i, i + pattern.len()) == pattern
}

/// The positions at which `pattern` occurs in `s`.
pub open spec fn occurrences(s: Seq<char>, pattern: Seq<char>) -> Set<int> {
    Set::new(|i: int| occurs_at(s, pattern, i))
}

/// Every character of `s` is white space.
pub open spec fn all_space(s: Seq<char>) -> bool {
    forall|i: int| 0 <= i < s.len() ==> is_space(#[trigger] s[i])
}

/// No character of `s` is white space.
pub open spec fn no_space(s: Seq<char>) -> bool {
    forall|i: int| 0 <= i < s.len() ==> !is_space(#[trigger] s[i])
}

/// Trailing white space after text that ends in another character is what
/// trimming the end removes.
proof fn lemma_trim_space_end(a: Seq<char>, w: Seq<char>)
    requires
        a.len() > 0,
        !is_space(a.last()),
        all_space(w),
    ensures
        trim_space_end(a + w) == a,
    decreases w.len(),
{
    if w.len() == 0 {
        assert(a + w =~= a);
    } else {
        assert((a + w).last() == w.last());
        assert((a + w).drop_last() =~= a + w.drop_last());
        lemma_trim_space_end(a, w.drop_last());
    }
}

/// Leading white space before text that starts with another character is
/// what trimming the start removes.
proof fn lemma_trim_space_start(w: Seq<char>, a: Seq<char>)
    requires
        a.len() > 0,
        !is_space(a[0]),
        all_space(w),
    ensures
        trim_space_start(w + a) == a,
    decreases w.len(),
{
    if w.len() == 0 {
        assert(w + a =~= a);
    } else {
        assert((w + a)[0] == w[0]);
        assert((w + a).drop_first() =~= w.drop_first() + a);
        lemma_trim_space_start(w.drop_first(), a);
    }
}

/// Removing white space from two texts one after the other.
proof fn lemma_strip_space_concat(a: Seq<char>, b: Seq<char>)
    ensures
        strip_space(a + b) == strip_space(a) + strip_space(b),
    decreases b.len(),
{
    if b.len() == 0 {
        assert(a + b =~= a);
        assert(strip_space(a) + strip_space(b) =~= strip_space(a));
    } else {
        assert((a + b).last() == b.last());
        assert((a + b).drop_last() =~= a + b.drop_last());
        lemma_strip_space_concat(a, b.drop_last());
        if !is_space(b.last()) {
            assert((strip_space(a) + strip_space(b.drop_last())).push(b.last()) =~= strip_space(a)
                + strip_space(b.drop_last()).push(b.last()));
        }
    }
}

/// Text without white space stays as it is.
proof fn lemma_strip_no_space(s: Seq<char>)
    requires
        no_space(s),
    ensures
        strip_space(s) == s,
    decreases s.len(),
{
    if s.len() > 0 {
        assert(no_space(s.drop_last())) by {
            assert forall|i: int| 0 <= i < s.drop_last().len() implies !is_space(
                #[trigger] s.drop_last()[i],
            ) by {
                assert(s.drop_last()[i] == s[i]);
            }
        }
        lemma_strip_no_space(s.drop_last());
        assert(s.drop_last().push(s.last()) =~= s);
    }
}

/// White space alone leaves nothing.
proof fn lemma_strip_all_space(s: Seq<char>)
    requires
        all_space(s),
    ensures
        strip_space(s) == Seq::<char>::empty(),
    decreases s.len(),
{
    if s.len() > 0 {
        assert(all_space(s.drop_last())) by {
            assert forall|i: int| 0 <= i < s.drop_last().len() implies is_space(
                #[trigger] s.drop_last()[i],
            ) by {
                assert(s.drop_last()[i] == s[i]);
            }
        }
        lemma_strip_all_space(s.drop_last());
    }
}

/// Removing white space from `s[i..]` is removing it from `s[i..j]` and
/// then from `s[j..]`; the piece `s[i..j]` is kept whole when it holds no
/// white space (`keep`), and dropped when it holds nothing else.
proof fn lemma_strip_piece(s: Seq<char>, i: int, j: int, keep: bool)
    requires
        0 <= i <= j <= s.len(),
        keep ==> no_space(s.subrange(i, j)),
        !keep ==> all_space(s.subrange(i, j)),
    ensures
        strip_space(s.subrange(i, s.len() as int)) == (if keep {
            s.subrange(i, j)
        } else {
            Seq::<char>::empty()
        }) + strip_space(s.subrange(j, s.len() as int)),
{
    assert(s.subrange(i, s.len() as int) =~= s.subrange(i, j) + s.subrange(j, s.len() as int));
    lemma_strip_space_concat(s.subrange(i, j), s.subrange(j, s.len() as int));
    if keep {
        lemma_strip_no_space(s.subrange(i, j));
    } else {
        lemma_strip_all_space(s.subrange(i, j));
    }
}

/// The `extends` query is a fixed head, an optional filter on the value,
/// then a fixed tail: the filter puts the name in verbatim, the head ends
/// (white space aside) with the test for the `extends` key, and the tail is
/// the closing bracket.
pub proof fn law_extends_query_shape(extend_name: Seq<char>)
    ensures
        extends_query(None) == EXTENDS_QUERY_HEAD@ + EXTENDS_QUERY_TAIL@,
        extends_query(Some(extend_name)) == EXTENDS_QUERY_HEAD@ + "(#eq? @value \""@ + extend_name
            + "\")"@ + EXTENDS_QUERY_TAIL@,
        has_suffix(trim_space_end(EXTENDS_QUERY_HEAD@), "(#eq? @key \"extends\")"@),
        trim_space(EXTENDS_QUERY_TAIL@) == ")"@,
{
    reveal_strlit(r##"
        (
            block_mapping_pair
            key: (flow_node) @key
            value: [
                (flow_node(plain_scalar(string_scalar))) @value
                (block_node(block_sequence(block_sequence_item(flow_node(plain_scalar(string_scalar) @value)))))
            ]
            (#eq? @key "extends")
            "##);
    reveal_strlit(r##"
        )
        "##);
    reveal_strlit("(#eq? @value \"");
    reveal_strlit("\")");
    reveal_strlit("(#eq? @key \"extends\")");
    reveal_strlit(")");
    assert(extends_query(None) =~= EXTENDS_QUERY_HEAD@ + EXTENDS_QUERY_TAIL@);
    assert(extends_query(Some(extend_name)) =~= EXTENDS_QUERY_HEAD@ + "(#eq? @value \""@ + extend_name
        + "\")"@ + EXTENDS_QUERY_TAIL@);
    assert(EXTENDS_QUERY_HEAD@ =~= EXTENDS_QUERY_HEAD@.subrange(0, 321) + EXTENDS_QUERY_HEAD@.subrange(321, 334));
    lemma_trim_space_end(EXTENDS_QUERY_HEAD@.subrange(0, 321), EXTENDS_QUERY_HEAD@.subrange(321, 334));
    assert(EXTENDS_QUERY_HEAD@.subrange(0, 321).subrange(300, 321) =~= "(#eq? @key \"extends\")"@);
    let t = EXTENDS_QUERY_TAIL@;
    assert(t =~= t.subrange(0, 10) + t.subrange(10, 19));
    lemma_trim_space_end(t.subrange(0, 10), t.subrange(10, 19));
    assert(t.subrange(0, 10) =~= t.subrange(0, 9) + t.subrange(9, 10));
    lemma_trim_space_start(t.subrange(0, 9), t.subrange(9, 10));
    assert(t.subrange(9, 10) =~= ")"@);
}

/// The root node query is a fixed head, the node key, then a fixed tail:
/// the head ends by opening the key's test (`(#eq? @key "`), the tail closes
/// it, that test is the query's only one, and the head captures the key of
/// a top-level mapping entry and the mapping itself.
pub proof fn law_root_node_query_shape(node_key: Seq<char>)
    ensures
        root_node_query(node_key) == ROOT_NODE_QUERY_HEAD@ + node_key + ROOT_NODE_QUERY_TAIL@,
        has_suffix(ROOT_NODE_QUERY_HEAD@, "(#eq? @key \""@),
        has_prefix(ROOT_NODE_QUERY_TAIL@, "\")"@),
        occurrences(ROOT_NODE_QUERY_HEAD@ + ROOT_NODE_QUERY_TAIL@, "#eq?"@).finite(),
        occurrences(ROOT_NODE_QUERY_HEAD@ + ROOT_NODE_QUERY_TAIL@, "#eq?"@).len() == 1,
        has_infix(ROOT_NODE_QUERY_HEAD@, "stream("@),
        has_infix(ROOT_NODE_QUERY_HEAD@, "string_scalar)@key"@),
        has_infix(ROOT_NODE_QUERY_HEAD@, ")@value"@),
{
    reveal_strlit(r##"
        (
            stream(
                document(
                    block_node(
                        block_mapping(
                            block_mapping_pair
                                key: (flow_node(plain_scalar(string_scalar)@key))
                        )@value
                    )
                )
            )
            (#eq? @key ""##);
    reveal_strlit(r##"")
        )
        "##);
    reveal_strlit("(#eq? @key \"");
    reveal_strlit("\")");
    reveal_strlit("#eq?");
    reveal_strlit("stream(");
    reveal_strlit("string_scalar)@key");
    reveal_strlit(")@value");
    assert(ROOT_NODE_QUERY_HEAD@.subrange(355, 367) =~= "(#eq? @key \""@);
    assert(ROOT_NODE_QUERY_TAIL@.subrange(0, 2) =~= "\")"@);
    assert(ROOT_NODE_QUERY_HEAD@.subrange(23, 23int + "stream("@.len()) =~= "stream("@);
    assert(ROOT_NODE_QUERY_HEAD@.subrange(236, 236int + "string_scalar)@key"@.len()) =~= "string_scalar)@key"@);
    assert(ROOT_NODE_QUERY_HEAD@.subrange(281, 281int + ")@value"@.len()) =~= ")@value"@);
    let q = ROOT_NODE_QUERY_HEAD@ + ROOT_NODE_QUERY_TAIL@;
    assert(forall|i: int| 0 <= i < q.len() && q[i] == '#' ==> i == 356);
    assert forall|i: int| #[trigger] occurrences(q, "#eq?"@).contains(i) <==> (i == 356) by {
        if occurs_at(q, "#eq?"@, i) {
            assert(q.subrange(i, i + 4)[0] == q[i]);
        }
        if i == 356 {
            assert(q.subrange(356, 360) =~= "#eq?"@);
        }
    }
    assert(occurrences(q, "#eq?"@) =~= set![356]);
}

/// The query for all root nodes without its white space.
#[verifier::rlimit(50)]
proof fn lemma_strip_all_root_nodes_query()
    ensures
        strip_space(ALL_ROOT_NODES_QUERY@) == r##"(stream(document(block_node(block_mapping(block_mapping_pairkey:(flow_node(plain_scalar(string_scalar)@key)))"##@ + "@value"@ + r##"))))"##@,
{
    reveal_strlit(r##"
        (
            stream(
                document(
                block_node(
                    block_mapping(
                    block_mapping_pair
                        key: (flow_node(plain_scalar(string_scalar)@key))
                    )@value
                )
                )
            )
        )
        "##);
    reveal_strlit(r##"(stream(document(block_node(block_mapping(block_mapping_pairkey:(flow_node(plain_scalar(string_scalar)@key)))"##);
    reveal_strlit(r##"))))"##);
    reveal_strlit("@value");
    let s = ALL_ROOT_NODES_QUERY@;
    lemma_strip_piece(s, 0, 9, false);
    lemma_strip_piece(s, 9, 10, true);
    lemma_strip_piece(s, 10, 23, false);
    lemma_strip_piece(s, 23, 30, true);
    lemma_strip_piece(s, 30, 47, false);
    lemma_strip_piece(s, 47, 56, true);
    lemma_strip_piece(s, 56, 73, false);
    lemma_strip_piece(s, 73, 84, true);
    lemma_strip_piece(s, 84, 105, false);
    lemma_strip_piece(s, 105, 119, true);
    lemma_strip_piece(s, 119, 140, false);
    lemma_strip_piece(s, 140, 158, true);
    lemma_strip_piece(s, 158, 183, false);
    lemma_strip_piece(s, 183, 187, true);
    lemma_strip_piece(s, 187, 188, false);
    lemma_strip_piece(s, 188, 232, true);
    lemma_strip_piece(s, 232, 253, false);
    lemma_strip_piece(s, 253, 260, true);
    lemma_strip_piece(s, 260, 277, false);
    lemma_strip_piece(s, 277, 278, true);
    lemma_strip_piece(s, 278, 295, false);
    lemma_strip_piece(s, 295, 296, true);
    lemma_strip_piece(s, 296, 309, false);
    lemma_strip_piece(s, 309, 310, true);
    lemma_strip_piece(s, 310, 319, false);
    lemma_strip_piece(s, 319, 320, true);
    lemma_strip_piece(s, 320, 329, false);
    assert(s.subrange(0, 329) =~= s);
    assert(s.subrange(329, 329) =~= Seq::<char>::empty());
    assert(strip_space(s) =~= r##"(stream(document(block_node(block_mapping(block_mapping_pairkey:(flow_node(plain_scalar(string_scalar)@key)))"##@ + "@value"@ + r##"))))"##@);
}

/// The query for root nodes at a position without its white space.
#[verifier::rlimit(50)]
proof fn lemma_strip_root_node_at_position_query()
    ensures
        strip_space(ROOT_NODE_AT_POSITION_QUERY@) == r##"(stream(document(block_node(block_mapping(block_mapping_pairkey:(flow_node(plain_scalar(string_scalar)@key)))"##@ + "@full"@ + r##"))))"##@,
{
    reveal_strlit(r##"
        (
            stream(
                document(
                    block_node(
                        block_mapping(
                            block_mapping_pair
                                key: (flow_node(plain_scalar(string_scalar)@key))
                        )@full
                    )
                )
            )
        )
        "##);
    reveal_strlit(r##"(stream(document(block_node(block_mapping(block_mapping_pairkey:(flow_node(plain_scalar(string_scalar)@key)))"##);
    reveal_strlit(r##"))))"##);
    reveal_strlit("@full");
    let s = ROOT_NODE_AT_POSITION_QUERY@;
    lemma_strip_piece(s, 0, 9, false);
    lemma_strip_piece(s, 9, 10, true);
    lemma_strip_piece(s, 10, 23, false);
    lemma_strip_piece(s, 23, 30, true);
    lemma_strip_piece(s, 30, 47, false);
    lemma_strip_piece(s, 47, 56, true);
    lemma_strip_piece(s, 56, 77, false);
    lemma_strip_piece(s, 77, 88, true);
    lemma_strip_piece(s, 88, 113, false);
    lemma_strip_piece(s, 113, 127, true);
    lemma_strip_piece(s, 127, 156, false);
    lemma_strip_piece(s, 156, 174, true);
    lemma_strip_piece(s, 174, 207, false);
    lemma_strip_piece(s, 207, 211, true);
    lemma_strip_piece(s, 211, 212, false);
    lemma_strip_piece(s, 212, 256, true);
    lemma_strip_piece(s, 256, 281, false);
    lemma_strip_piece(s, 281, 287, true);
    lemma_strip_piece(s, 287, 308, false);
    lemma_strip_piece(s, 308, 309, true);
    lemma_strip_piece(s, 309, 326, false);
    lemma_strip_piece(s, 326, 327, true);
    lemma_strip_piece(s, 327, 340, false);
    lemma_strip_piece(s, 340, 341, true);
    lemma_strip_piece(s, 341, 350, false);
    lemma_strip_piece(s, 350, 351, true);
    lemma_strip_piece(s, 351, 360, false);
    assert(s.subrange(0, 360) =~= s);
    assert(s.subrange(360, 360) =~= Seq::<char>::empty());
    assert(strip_space(s) =~= r##"(stream(document(block_node(block_mapping(block_mapping_pairkey:(flow_node(plain_scalar(string_scalar)@key)))"##@ + "@full"@ + r##"))))"##@);
}

/// With white space set aside, the query for root nodes at a position is
/// the query for all root nodes with the mapping captured as `@full` in
/// place of `@value`, which that query names once.
pub proof fn law_root_node_at_position_query()
    ensures
        exists|p: Seq<char>, q: Seq<char>|
            strip_space(ALL_ROOT_NODES_QUERY@) == p + "@value"@ + q && strip_space(
                ROOT_NODE_AT_POSITION_QUERY@,
            ) == p + "@full"@ + q && !has_infix(p, "@value"@) && !has_infix(q, "@value"@),
{
    lemma_strip_all_root_nodes_query();
    lemma_strip_root_node_at_position_query();
    reveal_strlit(r##"(stream(document(block_node(block_mapping(block_mapping_pairkey:(flow_node(plain_scalar(string_scalar)@key)))"##);
    reveal_strlit(r##"))))"##);
    reveal_strlit("@value");
    let p = r##"(stream(document(block_node(block_mapping(block_mapping_pairkey:(flow_node(plain_scalar(string_scalar)@key)))"##@;
    let q = r##"))))"##@;
    assert(forall|i: int| 0 <= i < p.len() && p[i] == '@' ==> i == 102);
    assert(p[103] == 'k');
    assert(forall|i: int| 0 <= i < q.len() ==> q[i] != '@');
    assert forall|i: int| 0 <= i <= p.len() - 6 implies #[trigger] p.subrange(i, i + "@value"@.len()) != "@value"@ by {
        if p.subrange(i, i + 6) == "@value"@ {
            assert(p.subrange(i, i + 6)[0] == p[i]);
            assert(p.subrange(i, i + 6)[1] == p[i + 1]);
        }
    }
    assert forall|i: int| 0 <= i <= q.len() - 6 implies #[trigger] q.subrange(i, i + "@value"@.len()) != "@value"@ by {
        if q.subrange(i, i + 6) == "@value"@ {
            assert(q.subrange(i, i + 6)[0] == q[i]);
        }
    }
}

/// The `needs` query is a fixed head, an optional filter on the job, then a
/// fixed tail: the filter puts the name in verbatim, the head ends (white
/// space aside) with the test for the `job` key, and without a filter the
/// query holds two tests, one of them for the `needs` key.
pub proof fn law_job_needs_query_shape(needs_name: Seq<char>)
    ensures
        job_needs_query(None) == JOB_NEEDS_QUERY_HEAD@ + JOB_NEEDS_QUERY_TAIL@,
        job_needs_query(Some(needs_name)) == JOB_NEEDS_QUERY_HEAD@ + "(#eq? @needs_job_value \""@
            + needs_name + "\")"@ + JOB_NEEDS_QUERY_TAIL@,
        has_suffix(trim_space_end(JOB_NEEDS_QUERY_HEAD@), "(#eq? @needs_job_key \"job\")"@),
        occurrences(job_needs_query(None), "#eq?"@).finite(),
        occurrences(job_needs_query(None), "#eq?"@).len() == 2,
        has_infix(job_needs_query(None), "(#eq? @needs_key \"needs\")"@),
{
    reveal_strlit(r##"
            (
                block_mapping_pair
                    key: (flow_node)@needs_key
                    value: (
                    block_node(
                        block_sequence(
                        block_sequence_item(
                            block_node(
                            block_mapping(
                                block_mapping_pair
                                key: (flow_node)@needs_job_key
                                value: (flow_node)@needs_job_value
                            )
                            )
                        )
                        )
                    )
                )
                (#eq? @needs_key "needs")
                (#eq? @needs_job_key "job")
                "##);
    reveal_strlit(r##"
            )
        "##);
    reveal_strlit("(#eq? @needs_job_value \"");
    reveal_strlit("\")");
    reveal_strlit("(#eq? @needs_job_key \"job\")");
    reveal_strlit("(#eq? @needs_key \"needs\")");
    reveal_strlit("#eq?");
    assert(job_needs_query(None) =~= JOB_NEEDS_QUERY_HEAD@ + JOB_NEEDS_QUERY_TAIL@);
    assert(job_needs_query(Some(needs_name)) =~= JOB_NEEDS_QUERY_HEAD@ + "(#eq? @needs_job_value \""@
        + needs_name + "\")"@ + JOB_NEEDS_QUERY_TAIL@);
    assert(JOB_NEEDS_QUERY_HEAD@ =~= JOB_NEEDS_QUERY_HEAD@.subrange(0, 744) + JOB_NEEDS_QUERY_HEAD@.subrange(744, 761));
    lemma_trim_space_end(JOB_NEEDS_QUERY_HEAD@.subrange(0, 744), JOB_NEEDS_QUERY_HEAD@.subrange(744, 761));
    assert(JOB_NEEDS_QUERY_HEAD@.subrange(0, 744).subrange(717, 744) =~= "(#eq? @needs_job_key \"job\")"@);
    assert(job_needs_query(None).subrange(675, 675int + "(#eq? @needs_key \"needs\")"@.len()) =~= "(#eq? @needs_key \"needs\")"@);
    let q = job_needs_query(None);
    assert(forall|i: int| 0 <= i < q.len() && q[i] == '#' ==> i == 676 || i == 718);
    assert forall|i: int| #[trigger] occurrences(q, "#eq?"@).contains(i) <==> (i == 676 || i == 718) by {
        if occurs_at(q, "#eq?"@, i) {
            assert(q.subrange(i, i + 4)[0] == q[i]);
        }
        if i == 676 {
            assert(q.subrange(676, 680) =~= "#eq?"@);
        }
        if i == 718 {
            assert(q.subrange(718, 722) =~= "#eq?"@);
        }
    }
    assert(occurrences(q, "#eq?"@) =~= set![676, 718]);
}

/// The job variable query is a fixed head, the job name, a fixed middle,
/// the variable name, then a fixed tail: the head ends by opening the job
/// key's test and tests for the `variables` property, the middle closes the
/// first test and opens the variable key's, the tail closes it, and the
/// query holds these three tests only.
pub proof fn law_job_variable_query_shape(job_name: Seq<char>, variable_name: Seq<char>)
    ensures
        job_variable_query(job_name, variable_name) == JOB_VARIABLE_QUERY_HEAD@ + job_name
            + JOB_VARIABLE_QUERY_MIDDLE@ + variable_name + JOB_VARIABLE_QUERY_TAIL@,
        has_suffix(JOB_VARIABLE_QUERY_HEAD@, "(#eq? @key \""@),
        has_prefix(JOB_VARIABLE_QUERY_MIDDLE@, "\")"@),
        has_suffix(JOB_VARIABLE_QUERY_MIDDLE@, "(#eq? @variable_key \""@),
        has_prefix(JOB_VARIABLE_QUERY_TAIL@, "\")"@),
        has_infix(JOB_VARIABLE_QUERY_HEAD@, "(#eq? @property_key \"variables\")"@),
        occurrences(
            JOB_VARIABLE_QUERY_HEAD@ + JOB_VARIABLE_QUERY_MIDDLE@ + JOB_VARIABLE_QUERY_TAIL@,
            "#eq?"@,
        ).finite(),
        occurrences(
            JOB_VARIABLE_QUERY_HEAD@ + JOB_VARIABLE_QUERY_MIDDLE@ + JOB_VARIABLE_QUERY_TAIL@,
            "#eq?"@,
        ).len() == 3,
{
    reveal_strlit(r##"
        (
            stream(
                document(
                    block_node(
                        block_mapping(
                            block_mapping_pair
                                key: (flow_node(plain_scalar(string_scalar)@key))
                                value: (
                                    block_node(
                                        block_mapping(
                                            block_mapping_pair
                                                key: (flow_node(plain_scalar(string_scalar)@property_key))
                                                value: (
                                                    block_node(
                                                        block_mapping(
                                                            block_mapping_pair
                                                            key: (flow_node(plain_scalar(string_scalar)@variable_key))
                                                        )
                                                    )
                                                )
                                            (#eq? @property_key "variables")
                                        )
                                    )
                                )
                            )
                        )
                    )
                )
            (#eq? @key ""##);
    reveal_strlit(r##"")
            (#eq? @variable_key ""##);
    reveal_strlit(r##"")
        )
        "##);
    reveal_strlit("(#eq? @key \"");
    reveal_strlit("\")");
    reveal_strlit("(#eq? @variable_key \"");
    reveal_strlit("(#eq? @property_key \"variables\")");
    reveal_strlit("#eq?");
    assert(JOB_VARIABLE_QUERY_HEAD@.subrange(1422, 1434) =~= "(#eq? @key \""@);
    assert(JOB_VARIABLE_QUERY_MIDDLE@.subrange(0, 2) =~= "\")"@);
    assert(JOB_VARIABLE_QUERY_MIDDLE@.subrange(15, 36) =~= "(#eq? @variable_key \""@);
    assert(JOB_VARIABLE_QUERY_TAIL@.subrange(0, 2) =~= "\")"@);
    assert(JOB_VARIABLE_QUERY_HEAD@.subrange(1167, 1167int + "(#eq? @property_key \"variables\")"@.len()) =~= "(#eq? @property_key \"variables\")"@);
    let q = JOB_VARIABLE_QUERY_HEAD@ + JOB_VARIABLE_QUERY_MIDDLE@ + JOB_VARIABLE_QUERY_TAIL@;
    assert(forall|i: int| 0 <= i < q.len() && q[i] == '#' ==> i == 1168 || i == 1423 || i == 1450);
    assert forall|i: int| #[trigger] occurrences(q, "#eq?"@).contains(i) <==> (i == 1168 || i == 1423 || i == 1450) by {
        if occurs_at(q, "#eq?"@, i) {
            assert(q.subrange(i, i + 4)[0] == q[i]);
        }
        if i == 1168 {
            assert(q.subrange(1168, 1172) =~= "#eq?"@);
        }
        if i == 1423 {
            assert(q.subrange(1423, 1427) =~= "#eq?"@);
        }
        if i == 1450 {
            assert(q.subrange(1450, 1454) =~= "#eq?"@);
        }
    }
    assert(occurrences(q, "#eq?"@) =~= set![1168, 1423, 1450]);
}

} // verus!
