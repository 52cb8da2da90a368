//! Properties of the index and of the answers built from it that hold for
//! every input: what indexing stores is what a lookup gives back, completions
//! offer exactly the matching keys, and a template gets a diagnostic exactly
//! when it is defined nowhere.

use vstd::prelude::*;
use crate::completion::{
    completion_range, flat_nodes, input_items, key_items, key_matches, key_used, node_items,
    node_matches, option_items, yaml_details, NodeFilter,
};
use crate::diagnostics::{
    job_diagnostics, job_report, reports_job, reports_rule, reports_stage, rule_diagnostics,
    rule_report, stage_diagnostics, stage_report,
};
use crate::definition::{project_file_path, unquoted};
use crate::handlers::{
    node_text, with_components, with_elements, with_files, with_node, with_nodes, NodeSets, TextEntries,
};
use crate::hover::{first_node_named, nodes_with_documents};
use crate::text::{has_infix, trimmed_end, trimmed_start};
use crate::keyed::{
    has_key, inserted, key_index, keys_distinct, lemma_inserted_distinct, lemma_lookup_at, lemma_lookup_inserted, lookup,
};
use crate::types::{Component, ComponentInput, GitlabElement, GitlabFile, LSPPosition};

verus! {

/// Storing files keeps one document per URI.
pub proof fn lemma_with_files_distinct(d: TextEntries, files: Seq<GitlabFile>)
    requires
        keys_distinct(d),
    ensures
        keys_distinct(with_files(d, files)),
    decreases files.len(),
{
    if files.len() > 0 {
        lemma_with_files_distinct(d, files.drop_last());
        lemma_inserted_distinct(
            with_files(d, files.drop_last()),
            files.last().path@,
            files.last().content@,
        );
    }
}

/// File `i` is the last one with path `k`.
pub open spec fn is_last_with_path(files: Seq<GitlabFile>, k: Seq<char>, i: int) -> bool {
    &&& 0 <= i < files.len()
    &&& files[i].path@ == k
    &&& forall|j: int| i < j < files.len() ==> (#[trigger] files[j]).path@ != k
}

/// After files are stored, the document at a path holds the text of the last
/// file with that path; a document at a path no file has keeps its text.
pub proof fn lemma_indexed_file_read(d: TextEntries, files: Seq<GitlabFile>, k: Seq<char>)
    requires
        keys_distinct(d),
    ensures
        (exists|i: int| is_last_with_path(files, k, i)) ==> lookup(with_files(d, files), k) == Some(
            files[choose|i: int| is_last_with_path(files, k, i)].content@,
        ),
        (forall|i: int| 0 <= i < files.len() ==> (#[trigger] files[i]).path@ != k) ==> lookup(
            with_files(d, files),
            k,
        ) == lookup(d, k),
    decreases files.len(),
{
    if files.len() > 0 {
        let rest = files.drop_last();
        let last = files.last();
        lemma_indexed_file_read(d, rest, k);
        lemma_with_files_distinct(d, rest);
        lemma_lookup_inserted(with_files(d, rest), last.path@, last.content@, k);
        let n = files.len() - 1;
        if last.path@ == k {
            assert(is_last_with_path(files, k, n));
            let c = choose|i: int| is_last_with_path(files, k, i);
            assert(c == n) by {
                if c < n {
                    assert(files[n].path@ != k);
                }
            }
        } else {
            if exists|i: int| is_last_with_path(files, k, i) {
                let c = choose|i: int| is_last_with_path(files, k, i);
                assert(c < n);
                assert(is_last_with_path(rest, k, c));
                let c2 = choose|i: int| is_last_with_path(rest, k, i);
                assert(c2 == c) by {
                    if c2 < c {
                        assert(rest[c].path@ != k);
                    } else if c2 > c {
                        assert(files[c2].path@ != k);
                    }
                }
            }
            if forall|i: int| 0 <= i < files.len() ==> (#[trigger] files[i]).path@ != k {
                assert forall|i: int| 0 <= i < rest.len() implies (#[trigger] rest[i]).path@ != k by {
                    assert(rest[i] == files[i]);
                }
            }
        }
    }
}

/// Storing elements keeps one element per key.
pub proof fn lemma_with_elements_distinct(s: Seq<(Seq<char>, GitlabElement)>, elems: Seq<GitlabElement>)
    requires
        keys_distinct(s),
    ensures
        keys_distinct(with_elements(s, elems)),
    decreases elems.len(),
{
    if elems.len() > 0 {
        lemma_with_elements_distinct(s, elems.drop_last());
        lemma_inserted_distinct(with_elements(s, elems.drop_last()), elems.last().key@, elems.last());
    }
}

/// Element `i` is the last one with key `k`.
pub open spec fn is_last_with_key(elems: Seq<GitlabElement>, k: Seq<char>, i: int) -> bool {
    &&& 0 <= i < elems.len()
    &&& elems[i].key@ == k
    &&& forall|j: int| i < j < elems.len() ==> (#[trigger] elems[j]).key@ != k
}

/// After stages (or variables) are stored, the entry under a name is the
/// last element with that name; a name no element has keeps its entry.
pub proof fn lemma_indexed_element_read(s: Seq<(Seq<char>, GitlabElement)>, elems: Seq<GitlabElement>, k: Seq<char>)
    requires
        keys_distinct(s),
    ensures
        (exists|i: int| is_last_with_key(elems, k, i)) ==> lookup(with_elements(s, elems), k) == Some(
            elems[choose|i: int| is_last_with_key(elems, k, i)],
        ),
        (forall|i: int| 0 <= i < elems.len() ==> (#[trigger] elems[i]).key@ != k) ==> lookup(
            with_elements(s, elems),
            k,
        ) == lookup(s, k),
    decreases elems.len(),
{
    if elems.len() > 0 {
        let rest = elems.drop_last();
        let last = elems.last();
        lemma_indexed_element_read(s, rest, k);
        lemma_with_elements_distinct(s, rest);
        lemma_lookup_inserted(with_elements(s, rest), last.key@, last, k);
        let n = elems.len() - 1;
        if last.key@ == k {
            assert(is_last_with_key(elems, k, n));
            let c = choose|i: int| is_last_with_key(elems, k, i);
            assert(c == n) by {
                if c < n {
                    assert(elems[n].key@ != k);
                }
            }
        } else {
            if exists|i: int| is_last_with_key(elems, k, i) {
                let c = choose|i: int| is_last_with_key(elems, k, i);
                assert(c < n);
                assert(is_last_with_key(rest, k, c));
                let c2 = choose|i: int| is_last_with_key(rest, k, i);
                assert(c2 == c) by {
                    if c2 < c {
                        assert(rest[c].key@ != k);
                    } else if c2 > c {
                        assert(elems[c2].key@ != k);
                    }
                }
            }
            if forall|i: int| 0 <= i < elems.len() ==> (#[trigger] elems[i]).key@ != k {
                assert forall|i: int| 0 <= i < rest.len() implies (#[trigger] rest[i]).key@ != k by {
                    assert(rest[i] == elems[i]);
                }
            }
        }
    }
}

/// One node set per document, and one node per key within each.
pub open spec fn node_sets_distinct(n: NodeSets) -> bool {
    &&& keys_distinct(n)
    &&& forall|i: int| 0 <= i < n.len() ==> keys_distinct(#[trigger] n[i].1)
}

/// The text stored for node `key` of document `uri`, if any.
pub open spec fn node_lookup(n: NodeSets, uri: Seq<char>, key: Seq<char>) -> Option<Seq<char>> {
    match lookup(n, uri) {
        Some(m) => lookup(m, key),
        None => None,
    }
}

/// Storing one node keeps the node sets distinct, gives back its text under
/// its document and key, and leaves every other document and key as it was.
pub proof fn lemma_with_node_read(n: NodeSets, uri: Seq<char>, key: Seq<char>, text: Seq<char>, u: Seq<char>, k: Seq<char>)
    requires
        node_sets_distinct(n),
    ensures
        node_sets_distinct(with_node(n, uri, key, text)),
        node_lookup(with_node(n, uri, key, text), u, k) == if u == uri && k == key {
            Some(text)
        } else {
            node_lookup(n, u, k)
        },
{
    let inner = match lookup(n, uri) {
        Some(m) => m,
        None => Seq::empty(),
    };
    if has_key(n, uri) {
        lemma_lookup_at(n, key_index(n, uri));
        assert(keys_distinct(n[key_index(n, uri)].1));
    }
    assert(keys_distinct(inner));
    let inner2 = inserted(inner, key, text);
    lemma_inserted_distinct(inner, key, text);
    let t = with_node(n, uri, key, text);
    assert(t == inserted(n, uri, inner2));
    lemma_inserted_distinct(n, uri, inner2);
    lemma_lookup_inserted(n, uri, inner2, u);
    lemma_lookup_inserted(inner, key, text, k);
    assert forall|i: int| 0 <= i < t.len() implies keys_distinct(#[trigger] t[i].1) by {
        if has_key(n, uri) {
            let p = key_index(n, uri);
            if i != p {
                assert(t[i] == n[i]);
            }
        } else {
            if i < n.len() {
                assert(t[i] == n[i]);
            }
        }
    }
}

/// Node `i` is the last one of document `u` with key `k`.
pub open spec fn is_last_node(nodes: Seq<GitlabElement>, u: Seq<char>, k: Seq<char>, i: int) -> bool {
    &&& 0 <= i < nodes.len()
    &&& nodes[i].uri@ == u && nodes[i].key@ == k
    &&& forall|j: int| i < j < nodes.len() ==> !((#[trigger] nodes[j]).uri@ == u && nodes[j].key@ == k)
}

/// After nodes are stored, node `k` of document `u` holds the text of the
/// last node of that document with that key (empty when it had none); a
/// document and key that no node has keep their text.
pub proof fn lemma_indexed_node_read(n: NodeSets, nodes: Seq<GitlabElement>, u: Seq<char>, k: Seq<char>)
    requires
        node_sets_distinct(n),
    ensures
        node_sets_distinct(with_nodes(n, nodes)),
        (exists|i: int| is_last_node(nodes, u, k, i)) ==> node_lookup(with_nodes(n, nodes), u, k) == Some(
            node_text(nodes[choose|i: int| is_last_node(nodes, u, k, i)]),
        ),
        (forall|i: int| 0 <= i < nodes.len() ==> !((#[trigger] nodes[i]).uri@ == u && nodes[i].key@ == k))
            ==> node_lookup(with_nodes(n, nodes), u, k) == node_lookup(n, u, k),
    decreases nodes.len(),
{
    if nodes.len() > 0 {
        let rest = nodes.drop_last();
        let last = nodes.last();
        lemma_indexed_node_read(n, rest, u, k);
        lemma_with_node_read(with_nodes(n, rest), last.uri@, last.key@, node_text(last), u, k);
        let m = nodes.len() - 1;
        if last.uri@ == u && last.key@ == k {
            assert(is_last_node(nodes, u, k, m));
            let c = choose|i: int| is_last_node(nodes, u, k, i);
            assert(c == m) by {
                if c < m {
                    assert(!(nodes[m].uri@ == u && nodes[m].key@ == k));
                }
            }
        } else {
            if exists|i: int| is_last_node(nodes, u, k, i) {
                let c = choose|i: int| is_last_node(nodes, u, k, i);
                assert(c < m);
                assert(is_last_node(rest, u, k, c));
                let c2 = choose|i: int| is_last_node(rest, u, k, i);
                assert(c2 == c) by {
                    if c2 < c {
                        assert(!(rest[c].uri@ == u && rest[c].key@ == k));
                    } else if c2 > c {
                        assert(!(nodes[c2].uri@ == u && nodes[c2].key@ == k));
                    }
                }
            }
            if forall|i: int| 0 <= i < nodes.len() ==> !((#[trigger] nodes[i]).uri@ == u && nodes[i].key@ == k) {
                assert forall|i: int| 0 <= i < rest.len() implies !((#[trigger] rest[i]).uri@ == u && rest[i].key@ == k) by {
                    assert(rest[i] == nodes[i]);
                }
            }
        }
    }
}

/// A key is offered as a completion exactly when the index has it and it
/// matches the word: no other label is offered, and none that matches is
/// left out.
pub proof fn lemma_key_items_members<V>(
    entries: Seq<(Seq<char>, V)>,
    word: Seq<char>,
    prefix_only: bool,
    label: Seq<char>,
)
    ensures
        (exists|i: int|
            0 <= i < key_items(entries, word, prefix_only).len() && (#[trigger] key_items(
                entries,
                word,
                prefix_only,
            )[i]) == (label, None::<Seq<char>>)) <==> (exists|j: int|
            0 <= j < entries.len() && (#[trigger] entries[j]).0 == label && key_matches(
                label,
                word,
                prefix_only,
            )),
{
    let p = |e: (Seq<char>, V)| key_matches(e.0, word, prefix_only);
    let g = |e: (Seq<char>, V)| (e.0, None::<Seq<char>>);
    let f = entries.filter(p);
    let items = key_items(entries, word, prefix_only);
    assert(items == f.map_values(g));
    broadcast use vstd::seq_lib::group_filter_ensures;

    if exists|i: int| 0 <= i < items.len() && (#[trigger] items[i]) == (label, None::<Seq<char>>) {
        let i = choose|i: int| 0 <= i < items.len() && (#[trigger] items[i]) == (label, None::<Seq<char>>);
        assert(p(f[i]));
        assert(f.contains(f[i]));
        entries.lemma_filter_contains_rev(p, f[i]);
        let j = choose|j: int| 0 <= j < entries.len() && entries[j] == f[i];
        assert(entries[j].0 == label);
    }
    if exists|j: int| 0 <= j < entries.len() && (#[trigger] entries[j]).0 == label && key_matches(label, word, prefix_only) {
        let j = choose|j: int| 0 <= j < entries.len() && (#[trigger] entries[j]).0 == label && key_matches(label, word, prefix_only);
        assert(p(entries[j]));
        assert(f.contains(entries[j]));
        let i = choose|i: int| 0 <= i < f.len() && f[i] == entries[j];
        assert(items[i] == g(f[i]));
    }
}

/// Filtering then mapping keeps exactly the images of the elements that
/// pass: each passing element's image is there, and everything there is the
/// image of a passing element.
pub proof fn lemma_filter_map_members<A, B>(s: Seq<A>, p: spec_fn(A) -> bool, g: spec_fn(A) -> B, x: A)
    ensures
        s.contains(x) && p(x) ==> s.filter(p).map_values(g).contains(g(x)),
        forall|i: int|
            0 <= i < s.filter(p).map_values(g).len() ==> is_image_of_passing(
                s,
                p,
                g,
                #[trigger] s.filter(p).map_values(g)[i],
            ),
{
    let f = s.filter(p);
    let r = f.map_values(g);
    broadcast use vstd::seq_lib::group_filter_ensures;

    if s.contains(x) && p(x) {
        let j = choose|j: int| 0 <= j < s.len() && s[j] == x;
        assert(f.contains(s[j]));
        let i = choose|i: int| 0 <= i < f.len() && f[i] == x;
        assert(r[i] == g(x));
    }
    assert forall|i: int| 0 <= i < r.len() implies is_image_of_passing(s, p, g, #[trigger] r[i]) by {
        let y = f[i];
        assert(p(y));
        assert(f.contains(y));
        s.lemma_filter_contains_rev(p, y);
        assert(r[i] == g(y));
    }
}

/// `d` is the image under `g` of an element of `s` that passes `p`.
pub open spec fn is_image_of_passing<A, B>(s: Seq<A>, p: spec_fn(A) -> bool, g: spec_fn(A) -> B, d: B) -> bool {
    exists|y: A| #[trigger] s.contains(y) && p(y) && d == g(y)
}

/// A root node is offered as a completion exactly when it passes the
/// filter: each passing node of any document is offered with its text as
/// details, and each offer is such a node.
pub proof fn lemma_node_items_members(n: NodeSets, word: Seq<char>, filter: NodeFilter, entry: (Seq<char>, Seq<char>))
    ensures
        flat_nodes(n).contains(entry) && node_matches(filter, entry.0, word) ==> node_items(
            n,
            word,
            filter,
        ).contains((entry.0, Some(yaml_details(entry.1)))),
        forall|i: int|
            0 <= i < node_items(n, word, filter).len() ==> is_image_of_passing(
                flat_nodes(n),
                |e: (Seq<char>, Seq<char>)| node_matches(filter, e.0, word),
                |e: (Seq<char>, Seq<char>)| (e.0, Some(yaml_details(e.1))),
                #[trigger] node_items(n, word, filter)[i],
            ),
{
    lemma_filter_map_members(
        flat_nodes(n),
        |e: (Seq<char>, Seq<char>)| node_matches(filter, e.0, word),
        |e: (Seq<char>, Seq<char>)| (e.0, Some(yaml_details(e.1))),
        entry,
    );
}

/// A template named in document `uri` gets a diagnostic, at its range,
/// exactly when no document defines it: each such `extends` entry is
/// reported, and each report is of such an entry.
pub proof fn lemma_rule_diagnostics_members(uri: Seq<char>, nodes: NodeSets, extends: Seq<GitlabElement>, entry: GitlabElement)
    ensures
        extends.contains(entry) && reports_rule(uri, nodes, entry) ==> rule_diagnostics(
            uri,
            nodes,
            extends,
        ).contains(rule_report(entry)),
        forall|i: int|
            0 <= i < rule_diagnostics(uri, nodes, extends).len() ==> is_image_of_passing(
                extends,
                |e: GitlabElement| reports_rule(uri, nodes, e),
                |e: GitlabElement| rule_report(e),
                #[trigger] rule_diagnostics(uri, nodes, extends)[i],
            ),
{
    lemma_filter_map_members(
        extends,
        |e: GitlabElement| reports_rule(uri, nodes, e),
        |e: GitlabElement| rule_report(e),
        entry,
    );
}

/// A used stage gets a diagnostic, at its range, exactly when it is not
/// defined.
pub proof fn lemma_stage_diagnostics_members(
    stages: Seq<(Seq<char>, GitlabElement)>,
    used: Seq<GitlabElement>,
    entry: GitlabElement,
)
    ensures
        used.contains(entry) && reports_stage(stages, entry) ==> stage_diagnostics(stages, used).contains(
            stage_report(entry),
        ),
        forall|i: int|
            0 <= i < stage_diagnostics(stages, used).len() ==> is_image_of_passing(
                used,
                |e: GitlabElement| reports_stage(stages, e),
                |e: GitlabElement| stage_report(e),
                #[trigger] stage_diagnostics(stages, used)[i],
            ),
{
    lemma_filter_map_members(
        used,
        |e: GitlabElement| reports_stage(stages, e),
        |e: GitlabElement| stage_report(e),
        entry,
    );
}

/// A needed job gets a diagnostic, at its range, exactly when no document
/// defines it.
pub proof fn lemma_job_diagnostics_members(nodes: NodeSets, needs: Seq<GitlabElement>, entry: GitlabElement)
    ensures
        needs.contains(entry) && reports_job(nodes, entry) ==> job_diagnostics(nodes, needs).contains(
            job_report(entry),
        ),
        forall|i: int|
            0 <= i < job_diagnostics(nodes, needs).len() ==> is_image_of_passing(
                needs,
                |e: GitlabElement| reports_job(nodes, e),
                |e: GitlabElement| job_report(e),
                #[trigger] job_diagnostics(nodes, needs)[i],
            ),
{
    lemma_filter_map_members(
        needs,
        |e: GitlabElement| reports_job(nodes, e),
        |e: GitlabElement| job_report(e),
        entry,
    );
}

/// Filtering then mapping gives the same with predicates and maps that
/// agree everywhere.
proof fn lemma_filter_map_ext<A, B>(s: Seq<A>, p1: spec_fn(A) -> bool, p2: spec_fn(A) -> bool, g1: spec_fn(A) -> B, g2: spec_fn(A) -> B)
    requires
        forall|x: A| #[trigger] p1(x) == p2(x),
        forall|x: A| #[trigger] g1(x) == g2(x),
    ensures
        s.filter(p1).map_values(g1) == s.filter(p2).map_values(g2),
{
    assert(p1 =~= p2);
    assert(g1 =~= g2);
}

/// Some document of `nodes` has a root node with key `key`.
pub open spec fn some_document_defines(nodes: NodeSets, key: Seq<char>) -> bool {
    exists|i: int, j: int| 0 <= i < nodes.len() && 0 <= j < nodes[i].1.len() && #[trigger] nodes[i].1[j].0 == key
}

proof fn lemma_defined_anywhere_raw(nodes: NodeSets, key: Seq<char>)
    ensures
        crate::diagnostics::defined_anywhere(nodes, key) == some_document_defines(nodes, key),
{
    if crate::diagnostics::defined_anywhere(nodes, key) {
        let i = choose|i: int| 0 <= i < nodes.len() && has_key(#[trigger] nodes[i].1, key);
        let j = choose|j: int| 0 <= j < nodes[i].1.len() && #[trigger] nodes[i].1[j].0 == key;
        assert(nodes[i].1[j].0 == key);
    }
    if some_document_defines(nodes, key) {
        let (i, j) = choose|i: int, j: int|
            0 <= i < nodes.len() && 0 <= j < nodes[i].1.len() && #[trigger] nodes[i].1[j].0 == key;
        assert(has_key(nodes[i].1, key));
    }
}

/// The `extends` diagnostics of document `uri` are, in order, one for each
/// `extends` entry of that document whose template no document of the index
/// defines (a template defined in any indexed document counts), at the
/// entry's range, saying that the rule does not exist.
pub proof fn law_rule_diagnostics_exact(uri: Seq<char>, nodes: NodeSets, extends: Seq<GitlabElement>)
    ensures
        rule_diagnostics(uri, nodes, extends) == extends.filter(
            |e: GitlabElement| e.uri@ == uri && !some_document_defines(nodes, e.key@),
        ).map_values(|e: GitlabElement| (e.range, "Rule: "@ + e.key@ + " does not exist."@)),
{
    assert forall|e: GitlabElement| #[trigger] reports_rule(uri, nodes, e) == (e.uri@ == uri
        && !some_document_defines(nodes, e.key@)) by {
        lemma_defined_anywhere_raw(nodes, e.key@);
    }
    lemma_filter_map_ext(
        extends,
        |e: GitlabElement| reports_rule(uri, nodes, e),
        |e: GitlabElement| e.uri@ == uri && !some_document_defines(nodes, e.key@),
        |e: GitlabElement| rule_report(e),
        |e: GitlabElement| (e.range, "Rule: "@ + e.key@ + " does not exist."@),
    );
}

/// The `needs` diagnostics are, in order, one for each needed job that no
/// document of the index defines, at the entry's range.
pub proof fn law_job_diagnostics_exact(nodes: NodeSets, needs: Seq<GitlabElement>)
    ensures
        job_diagnostics(nodes, needs) == needs.filter(
            |e: GitlabElement| !some_document_defines(nodes, e.key@),
        ).map_values(|e: GitlabElement| (e.range, "Job: "@ + e.key@ + " does not exist."@)),
{
    assert forall|e: GitlabElement| #[trigger] reports_job(nodes, e) == !some_document_defines(nodes, e.key@) by {
        lemma_defined_anywhere_raw(nodes, e.key@);
    }
    lemma_filter_map_ext(
        needs,
        |e: GitlabElement| reports_job(nodes, e),
        |e: GitlabElement| !some_document_defines(nodes, e.key@),
        |e: GitlabElement| job_report(e),
        |e: GitlabElement| (e.range, "Job: "@ + e.key@ + " does not exist."@),
    );
}

/// The stage diagnostics are, in order, one for each used stage that no
/// defined stage is named like, at the entry's range.
pub proof fn law_stage_diagnostics_exact(stages: Seq<(Seq<char>, GitlabElement)>, used: Seq<GitlabElement>)
    ensures
        stage_diagnostics(stages, used) == used.filter(
            |e: GitlabElement| !(exists|i: int| 0 <= i < stages.len() && #[trigger] stages[i].0 == e.key@),
        ).map_values(|e: GitlabElement| (e.range, "Stage: "@ + e.key@ + " does not exist."@)),
{
    lemma_filter_map_ext(
        used,
        |e: GitlabElement| reports_stage(stages, e),
        |e: GitlabElement| !(exists|i: int| 0 <= i < stages.len() && #[trigger] stages[i].0 == e.key@),
        |e: GitlabElement| stage_report(e),
        |e: GitlabElement| (e.range, "Stage: "@ + e.key@ + " does not exist."@),
    );
}

/// The root nodes of all documents, in order, are exactly the nodes of the
/// documents: an entry is there exactly when some document has it.
pub proof fn law_flat_nodes_members(n: NodeSets, entry: (Seq<char>, Seq<char>))
    ensures
        flat_nodes(n).contains(entry) <==> exists|i: int| 0 <= i < n.len() && (#[trigger] n[i]).1.contains(entry),
    decreases n.len(),
{
    if n.len() > 0 {
        let rest = n.drop_last();
        law_flat_nodes_members(rest, entry);
        let a = flat_nodes(rest);
        let b = n.last().1;
        assert(flat_nodes(n) == a + b);
        if flat_nodes(n).contains(entry) {
            let k = choose|k: int| 0 <= k < (a + b).len() && (a + b)[k] == entry;
            if k < a.len() {
                assert(a[k] == entry);
                assert(a.contains(entry));
                let i = choose|i: int| 0 <= i < rest.len() && (#[trigger] rest[i]).1.contains(entry);
                assert(n[i] == rest[i]);
            } else {
                assert(b[k - a.len()] == entry);
                assert(n[n.len() - 1].1.contains(entry));
            }
        }
        if exists|i: int| 0 <= i < n.len() && (#[trigger] n[i]).1.contains(entry) {
            let i = choose|i: int| 0 <= i < n.len() && (#[trigger] n[i]).1.contains(entry);
            if i < n.len() - 1 {
                assert(rest[i] == n[i]);
                assert(a.contains(entry));
                let k = choose|k: int| 0 <= k < a.len() && a[k] == entry;
                assert((a + b)[k] == entry);
            } else {
                let k = choose|k: int| 0 <= k < b.len() && b[k] == entry;
                assert((a + b)[a.len() + k] == entry);
            }
        }
    }
}

/// The root nodes offered as completions are, in order, the nodes of all
/// documents whose keys hold the word: templates (keys beginning with a dot)
/// only for `extends`, jobs (keys not beginning with a dot) only for
/// `needs`, and every node for a `!reference`; each comes with its text in a
/// YAML block.
pub proof fn law_node_items_exact(n: NodeSets, word: Seq<char>, filter: NodeFilter)
    ensures
        node_items(n, word, filter) == flat_nodes(n).filter(
            |e: (Seq<char>, Seq<char>)| has_infix(e.0, word) && match filter {
                NodeFilter::Templates => e.0.len() > 0 && e.0[0] == '.',
                NodeFilter::Jobs => !(e.0.len() > 0 && e.0[0] == '.'),
                NodeFilter::Any => true,
            },
        ).map_values(|e: (Seq<char>, Seq<char>)| (e.0, Some("```yaml\r\n"@ + e.1 + "\r\n```"@))),
{
    lemma_filter_map_ext(
        flat_nodes(n),
        |e: (Seq<char>, Seq<char>)| node_matches(filter, e.0, word),
        |e: (Seq<char>, Seq<char>)| has_infix(e.0, word) && match filter {
            NodeFilter::Templates => e.0.len() > 0 && e.0[0] == '.',
            NodeFilter::Jobs => !(e.0.len() > 0 && e.0[0] == '.'),
            NodeFilter::Any => true,
        },
        |e: (Seq<char>, Seq<char>)| (e.0, Some(yaml_details(e.1))),
        |e: (Seq<char>, Seq<char>)| (e.0, Some("```yaml\r\n"@ + e.1 + "\r\n```"@)),
    );
}

/// No job offered for a `needs:` entry is a hidden template: no label
/// begins with a dot.
pub proof fn law_needs_completions_are_jobs(n: NodeSets, word: Seq<char>)
    ensures
        forall|i: int|
            0 <= i < node_items(n, word, NodeFilter::Jobs).len() ==> !((#[trigger] node_items(
                n,
                word,
                NodeFilter::Jobs,
            )[i]).0.len() > 0 && node_items(n, word, NodeFilter::Jobs)[i].0[0] == '.'),
{
    law_node_items_exact(n, word, NodeFilter::Jobs);
    let p = |e: (Seq<char>, Seq<char>)| has_infix(e.0, word) && !(e.0.len() > 0 && e.0[0] == '.');
    let f = flat_nodes(n).filter(p);
    assert forall|i: int| 0 <= i < f.len() implies p(#[trigger] f[i]) by {
        flat_nodes(n).lemma_filter_pred(p, i);
    }
}

/// The keys offered as completions are, in order, the keys of the entries
/// that begin with the word (`prefix_only`) or hold it, without details.
pub proof fn law_key_items_exact<V>(entries: Seq<(Seq<char>, V)>, word: Seq<char>, prefix_only: bool)
    ensures
        key_items(entries, word, prefix_only) == entries.filter(
            |e: (Seq<char>, V)| if prefix_only {
                word.len() <= e.0.len() && e.0.subrange(0, word.len() as int) == word
            } else {
                has_infix(e.0, word)
            },
        ).map_values(|e: (Seq<char>, V)| (e.0, None::<Seq<char>>)),
{
    lemma_filter_map_ext(
        entries,
        |e: (Seq<char>, V)| key_matches(e.0, word, prefix_only),
        |e: (Seq<char>, V)| if prefix_only {
            word.len() <= e.0.len() && e.0.subrange(0, word.len() as int) == word
        } else {
            has_infix(e.0, word)
        },
        |e: (Seq<char>, V)| (e.0, None::<Seq<char>>),
        |e: (Seq<char>, V)| (e.0, None::<Seq<char>>),
    );
}

/// The node that hover shows has exactly the word as its key, and no
/// earlier node (in document order) has that key.
pub proof fn law_hover_node_has_the_word(all: Seq<(Seq<char>, Seq<char>, Seq<char>)>, word: Seq<char>, f: int)
    requires
        first_node_named(all, word, f),
    ensures
        0 <= f < all.len(),
        all[f].1 == word,
        forall|g: int| 0 <= g < f ==> (#[trigger] all[g]).1 != word,
{
}

/// The nodes with their documents are exactly the nodes of each document,
/// tagged with that document's URI.
pub proof fn law_nodes_with_documents_members(n: NodeSets, u: Seq<char>, k: Seq<char>, t: Seq<char>)
    ensures
        nodes_with_documents(n).contains((u, k, t)) <==> exists|i: int|
            0 <= i < n.len() && (#[trigger] n[i]).0 == u && n[i].1.contains((k, t)),
    decreases n.len(),
{
    if n.len() > 0 {
        let rest = n.drop_last();
        law_nodes_with_documents_members(rest, u, k, t);
        let a = nodes_with_documents(rest);
        let last = n.last();
        let b = last.1.map_values(|e: (Seq<char>, Seq<char>)| (last.0, e.0, e.1));
        assert(nodes_with_documents(n) == a + b);
        if nodes_with_documents(n).contains((u, k, t)) {
            let x = choose|x: int| 0 <= x < (a + b).len() && (a + b)[x] == (u, k, t);
            if x < a.len() {
                assert(a[x] == (u, k, t));
                assert(a.contains((u, k, t)));
                let i = choose|i: int| 0 <= i < rest.len() && (#[trigger] rest[i]).0 == u && rest[i].1.contains((k, t));
                assert(n[i] == rest[i]);
            } else {
                let y = x - a.len();
                assert(b[y] == (u, k, t));
                assert(last.1[y] == (k, t));
                assert(n[n.len() - 1].1.contains((k, t)));
            }
        }
        if exists|i: int| 0 <= i < n.len() && (#[trigger] n[i]).0 == u && n[i].1.contains((k, t)) {
            let i = choose|i: int| 0 <= i < n.len() && (#[trigger] n[i]).0 == u && n[i].1.contains((k, t));
            if i < n.len() - 1 {
                assert(rest[i] == n[i]);
                assert(a.contains((u, k, t)));
                let x = choose|x: int| 0 <= x < a.len() && a[x] == (u, k, t);
                assert((a + b)[x] == (u, k, t));
            } else {
                let y = choose|y: int| 0 <= y < last.1.len() && last.1[y] == (k, t);
                assert(b[y] == (u, k, t));
                assert((a + b)[a.len() + y] == (u, k, t));
            }
        }
    }
}

/// Storing components keeps one component per URI.
pub proof fn lemma_with_components_distinct(s: Seq<(Seq<char>, Component)>, comps: Seq<Component>)
    requires
        keys_distinct(s),
    ensures
        keys_distinct(with_components(s, comps)),
    decreases comps.len(),
{
    if comps.len() > 0 {
        lemma_with_components_distinct(s, comps.drop_last());
        lemma_inserted_distinct(with_components(s, comps.drop_last()), comps.last().uri@, comps.last());
    }
}

/// Component `i` is the last one published at `u`.
pub open spec fn is_last_with_uri(comps: Seq<Component>, u: Seq<char>, i: int) -> bool {
    &&& 0 <= i < comps.len()
    &&& comps[i].uri@ == u
    &&& forall|j: int| i < j < comps.len() ==> (#[trigger] comps[j]).uri@ != u
}

/// After components are stored, every one of them is found under its URI:
/// the entry at a URI is the last component published there; a URI no
/// component has keeps its entry.
pub proof fn law_indexed_component_read(s: Seq<(Seq<char>, Component)>, comps: Seq<Component>, u: Seq<char>)
    requires
        keys_distinct(s),
    ensures
        (exists|i: int| is_last_with_uri(comps, u, i)) ==> lookup(with_components(s, comps), u) == Some(
            comps[choose|i: int| is_last_with_uri(comps, u, i)],
        ),
        (forall|i: int| 0 <= i < comps.len() ==> (#[trigger] comps[i]).uri@ != u) ==> lookup(
            with_components(s, comps),
            u,
        ) == lookup(s, u),
    decreases comps.len(),
{
    if comps.len() > 0 {
        let rest = comps.drop_last();
        let last = comps.last();
        law_indexed_component_read(s, rest, u);
        lemma_with_components_distinct(s, rest);
        lemma_lookup_inserted(with_components(s, rest), last.uri@, last, u);
        let n = comps.len() - 1;
        if last.uri@ == u {
            assert(is_last_with_uri(comps, u, n));
            let c = choose|i: int| is_last_with_uri(comps, u, i);
            assert(c == n) by {
                if c < n {
                    assert(comps[n].uri@ != u);
                }
            }
        } else {
            if exists|i: int| is_last_with_uri(comps, u, i) {
                let c = choose|i: int| is_last_with_uri(comps, u, i);
                assert(c < n);
                assert(is_last_with_uri(rest, u, c));
                let c2 = choose|i: int| is_last_with_uri(rest, u, i);
                assert(c2 == c) by {
                    if c2 < c {
                        assert(rest[c].uri@ != u);
                    } else if c2 > c {
                        assert(comps[c2].uri@ != u);
                    }
                }
            }
            if forall|i: int| 0 <= i < comps.len() ==> (#[trigger] comps[i]).uri@ != u {
                assert forall|i: int| 0 <= i < rest.len() implies (#[trigger] rest[i]).uri@ != u by {
                    assert(rest[i] == comps[i]);
                }
            }
        }
    }
}

/// Every component of the parse is found under its URI after storing:
/// component `i` is there unless a later one has the same URI.
pub proof fn law_every_component_indexed(s: Seq<(Seq<char>, Component)>, comps: Seq<Component>, i: int)
    requires
        keys_distinct(s),
        0 <= i < comps.len(),
        forall|j: int| i < j < comps.len() ==> (#[trigger] comps[j]).uri@ != comps[i].uri@,
    ensures
        lookup(with_components(s, comps), comps[i].uri@) == Some(comps[i]),
{
    law_indexed_component_read(s, comps, comps[i].uri@);
    assert(is_last_with_uri(comps, comps[i].uri@, i));
    let c = choose|k: int| is_last_with_uri(comps, comps[i].uri@, k);
    assert(c == i) by {
        if c < i {
            assert(comps[i].uri@ != comps[i].uri@);
        } else if c > i {
            assert(comps[c].uri@ != comps[i].uri@);
        }
    }
}

/// A file of a project include written in double or single quotes is
/// searched without the quotes, after the project and the ref, with its
/// leading slashes removed; so is one written without quotes.
pub proof fn law_project_file_path_unquotes(project: Seq<char>, reference: Seq<char>, file: Seq<char>)
    requires
        file.len() > 0,
        file[0] != '"' && file[0] != '\'',
        file.last() != '"' && file.last() != '\'',
    ensures
        project_file_path(project, reference, seq!['"'] + file + seq!['"']) == project + "/"@ + reference
            + "/"@ + trimmed_start(file, '/'),
        project_file_path(project, reference, seq!['\''] + file + seq!['\'']) == project + "/"@
            + reference + "/"@ + trimmed_start(file, '/'),
        project_file_path(project, reference, file) == project + "/"@ + reference + "/"@ + trimmed_start(
            file,
            '/',
        ),
{
    lemma_unquote_wrapped(file, '"');
    lemma_unquote_wrapped(file, '\'');
    lemma_unquote_plain(file);
}

/// A text wrapped in one kind of quote loses them, and only them.
proof fn lemma_unquote_wrapped(file: Seq<char>, q: char)
    requires
        q == '"' || q == '\'',
        file.len() > 0,
        file[0] != '"' && file[0] != '\'',
        file.last() != '"' && file.last() != '\'',
    ensures
        unquoted(seq![q] + file + seq![q]) == file,
{
    let w = seq![q] + file + seq![q];
    assert(w[0] == q);
    assert(w.drop_first() =~= file + seq![q]);
    assert((file + seq![q])[0] == file[0]);
    assert((file + seq![q]).last() == q);
    assert((file + seq![q]).drop_last() =~= file);
    assert(w.last() == q);
    assert(w.drop_last() =~= seq![q] + file);
    assert((seq![q] + file)[0] == q);
    assert((seq![q] + file).drop_first() =~= file);
    if q == '"' {
        assert(trimmed_start(file + seq![q], '"') == file + seq![q]);
        assert(trimmed_start(w, '"') == file + seq![q]);
        assert(trimmed_end(file, '"') == file);
        assert(trimmed_end(file + seq![q], '"') == file);
        assert(trimmed_start(file, '\'') == file);
        assert(trimmed_end(file, '\'') == file);
    } else {
        assert(trimmed_start(w, '"') == w);
        assert(trimmed_end(w, '"') == w);
        assert(trimmed_start(file + seq![q], '\'') == file + seq![q]);
        assert(trimmed_start(w, '\'') == file + seq![q]);
        assert(trimmed_end(file, '\'') == file);
        assert(trimmed_end(file + seq![q], '\'') == file);
    }
}

/// A text that neither begins nor ends with a quote stays as it is.
proof fn lemma_unquote_plain(file: Seq<char>)
    requires
        file.len() > 0,
        file[0] != '"' && file[0] != '\'',
        file.last() != '"' && file.last() != '\'',
    ensures
        unquoted(file) == file,
{
}

/// The inputs offered inside a component's `inputs:` are, in the order of
/// the definition, the defined inputs that the document does not give yet
/// and whose keys begin with the word, each with its details.
pub proof fn law_input_items_exact(defined: Seq<ComponentInput>, given: Seq<ComponentInput>, word: Seq<char>)
    ensures
        input_items(defined, given, word) == defined.filter(
            |i: ComponentInput|
                !(exists|j: int| 0 <= j < given.len() && (#[trigger] given[j]).key@ == i.key@)
                    && word.len() <= i.key@.len() && i.key@.subrange(0, word.len() as int) == word,
        ).map_values(|i: ComponentInput| (i.key@, Some(i.details@))),
{
    lemma_filter_map_ext(
        defined,
        |i: ComponentInput| !key_used(given, i.key@) && crate::text::has_prefix(i.key@, word),
        |i: ComponentInput|
            !(exists|j: int| 0 <= j < given.len() && (#[trigger] given[j]).key@ == i.key@)
                && word.len() <= i.key@.len() && i.key@.subrange(0, word.len() as int) == word,
        |i: ComponentInput| (i.key@, Some(i.details@)),
        |i: ComponentInput| (i.key@, Some(i.details@)),
    );
}

/// The values offered for an input are, in order, the allowed values that
/// begin with the word, without details.
pub proof fn law_option_items_exact(options: Seq<String>, word: Seq<char>)
    ensures
        option_items(options, word) == options.filter(
            |o: String| word.len() <= o@.len() && o@.subrange(0, word.len() as int) == word,
        ).map_values(|o: String| (o@, None::<Seq<char>>)),
{
    lemma_filter_map_ext(
        options,
        |o: String| crate::text::has_prefix(o@, word),
        |o: String| word.len() <= o@.len() && o@.subrange(0, word.len() as int) == word,
        |o: String| (o@, None::<Seq<char>>),
        |o: String| (o@, None::<Seq<char>>),
    );
}

/// A completion replaces, on the cursor's line, the `before` characters
/// left of the cursor (up to the line's start when saturating) and the
/// `after` characters right of it.
pub proof fn law_completion_range(position: LSPPosition, before: int, after: int, saturating: bool)
    requires
        0 <= before <= u32::MAX,
        0 <= after,
        position.character + after <= u32::MAX,
        saturating || before <= position.character,
    ensures
        completion_range(position, before, after, saturating).start.line == position.line,
        completion_range(position, before, after, saturating).end.line == position.line,
        completion_range(position, before, after, saturating).end.character == position.character + after,
        completion_range(position, before, after, saturating).start.character == if before <= position.character {
            position.character - before
        } else {
            0
        },
{
}

} // verus!
