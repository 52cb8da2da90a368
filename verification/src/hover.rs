//! Hover: the root node whose key is the word under the cursor, and the
//! text shown for its full definition.

use vstd::prelude::*;
use crate::handlers::{node_view, LSPHandlers, NodeSets};
use crate::keyed::text_view;
use crate::text::{same_text, trim_end_char, trimmed_end};
use crate::types::{opt_chars, zero_range, GitlabElement, PositionType, Range};

verus! {

/// Every root node with its document: document URI, node key, node text,
/// document by document.
pub open spec fn nodes_with_documents(n: NodeSets) -> Seq<(Seq<char>, Seq<char>, Seq<char>)>
    decreases n.len(),
{
    if n.len() == 0 {
        Seq::empty()
    } else {
        nodes_with_documents(n.drop_last()) + n.last().1.map_values(
            |e: (Seq<char>, Seq<char>)| (n.last().0, e.0, e.1),
        )
    }
}

/// Node `f` is the first whose key is `key`.
pub open spec fn first_node_named(all: Seq<(Seq<char>, Seq<char>, Seq<char>)>, key: Seq<char>, f: int) -> bool {
    &&& 0 <= f < all.len()
    &&& all[f].1 == key
    &&& forall|g: int| 0 <= g < f ==> (#[trigger] all[g]).1 != key
}

/// The text shown on hover for a node's full definition: a YAML block.
pub open spec fn hover_text(definition: Seq<char>) -> Seq<char> {
    "```yaml\n"@ + definition + "\n```"@
}

/// The hover text for a node's full definition.
pub fn hover_content(definition: &str) -> (r: String)
    ensures
        r@ == hover_text(definition@),
{
    let mut r = String::from_str("```yaml\n");
    r.append(definition);
    r.append("\n```");
    r
}

/// The name of the root node to show on hover, given what the cursor stands
/// on and the word under it: the word less a trailing colon on a template
/// name or a root node, the referenced node on a `!reference`, and nothing
/// elsewhere.
pub fn hover_target(position_type: PositionType, word: &str) -> (r: Option<String>)
    ensures
        match position_type {
            PositionType::Extend | PositionType::RootNode => r matches Some(name) && name@
                == trimmed_end(word@, ':'),
            PositionType::RuleReference(reference) => r matches Some(name) && name@
                == reference.node@,
            _ => r is None,
        },
{
    match position_type {
        PositionType::Extend | PositionType::RootNode => Some(String::from_str(trim_end_char(word, ':'))),
        PositionType::RuleReference(reference) => Some(reference.node),
        _ => None,
    }
}

impl LSPHandlers {
    /// The first root node, over all documents, whose key is `word`: its
    /// key, its text and its document, at the document's start, ready to have
    /// its full definition looked up.
    pub fn hover_element(&self, word: &str) -> (r: Option<GitlabElement>)
        requires
            self.wf(),
        ensures
            ({
                let all = nodes_with_documents(self.node_sets());
                match r {
                    Some(e) => exists|f: int|
                        first_node_named(all, word@, f) && e.key@ == (#[trigger] all[f]).1
                            && opt_chars(e.content) == Some(all[f].2) && e.uri@ == all[f].0
                            && e.range == zero_range(),
                    None => forall|f: int| 0 <= f < all.len() ==> (#[trigger] all[f]).1 != word@,
                }
            }),
            r matches Some(e) ==> e.key@ == word@,
    {
        proof {
            self.lemma_reveal();
        }
        let ghost sets = node_view(self.nodes);
        let n = self.nodes.len();
        let mut i: usize = 0;
        assert(sets.take(0) =~= NodeSets::empty());
        while i < n
            invariant
                n == sets.len(),
                sets == node_view(self.nodes),
                sets == self.node_sets(),
                i <= n,
                forall|f: int|
                    0 <= f < nodes_with_documents(sets.take(i as int)).len() ==> (#[trigger] nodes_with_documents(
                        sets.take(i as int),
                    )[f]).1 != word@,
            decreases n - i,
        {
            let ghost done = nodes_with_documents(sets.take(i as int));
            let uri = self.nodes.key_at(i);
            let inner = self.nodes.value_at(i);
            let ghost here = sets[i as int].1.map_values(
                |e: (Seq<char>, Seq<char>)| (sets[i as int].0, e.0, e.1),
            );
            assert(sets.take(i + 1).drop_last() =~= sets.take(i as int));
            assert(nodes_with_documents(sets.take(i + 1)) == done + here);
            assert(sets[i as int].1 == text_view(inner@));
            let m = inner.len();
            let mut j: usize = 0;
            while j < m
                invariant
                    n == sets.len(),
                    i < n,
                    sets == node_view(self.nodes),
                    sets == self.node_sets(),
                    done == nodes_with_documents(sets.take(i as int)),
                    nodes_with_documents(sets.take(i + 1)) == done + here,
                    forall|f: int| 0 <= f < done.len() ==> (#[trigger] done[f]).1 != word@,
                    m == inner@.len(),
                    here.len() == m,
                    forall|h: int| 0 <= h < m ==> (#[trigger] here[h]).1 == inner@[h].0 && here[h].2
                        == inner@[h].1@ && here[h].0 == uri@,
                    j <= m,
                    forall|h: int| 0 <= h < j ==> (#[trigger] here[h]).1 != word@,
                decreases m - j,
            {
                if same_text(inner.key_at(j).as_str(), word) {
                    let e = GitlabElement {
                        key: inner.key_at(j).clone(),
                        content: Some(inner.value_at(j).clone()),
                        uri: uri.clone(),
                        range: Range::zero(),
                    };
                    proof {
                        let all = nodes_with_documents(sets);
                        let f = done.len() + j;
                        lemma_nodes_with_documents_prefix(sets, i as int + 1);
                        assert(all[f] == (done + here)[f]);
                        assert(first_node_named(all, word@, f)) by {
                            assert forall|g: int| 0 <= g < f implies (#[trigger] all[g]).1 != word@ by {
                                assert(all[g] == (done + here)[g]);
                                if g < done.len() {
                                    assert(done[g].1 != word@);
                                } else {
                                    assert(here[g - done.len()].1 != word@);
                                }
                            }
                        }
                        assert(all[f] == here[j as int]);
                        assert(e.key@ == all[f].1 && opt_chars(e.content) == Some(all[f].2) && e.uri@
                            == all[f].0);
                    }
                    return Some(e);
                }
                j = j + 1;
            }
            assert forall|f: int|
                0 <= f < (done + here).len() implies (#[trigger] (done + here)[f]).1 != word@ by {
                if f < done.len() {
                    assert((done + here)[f] == done[f]);
                } else {
                    assert((done + here)[f] == here[f - done.len()]);
                }
            }
            i = i + 1;
        }
        assert(sets.take(n as int) =~= sets);
        None
    }
}

/// The nodes of the first documents come first among all nodes.
proof fn lemma_nodes_with_documents_prefix(n: NodeSets, i: int)
    requires
        0 <= i <= n.len(),
    ensures
        nodes_with_documents(n.take(i)).len() <= nodes_with_documents(n).len(),
        forall|f: int|
            0 <= f < nodes_with_documents(n.take(i)).len() ==> nodes_with_documents(n)[f]
                == #[trigger] nodes_with_documents(n.take(i))[f],
    decreases n.len() - i,
{
    if i < n.len() {
        lemma_nodes_with_documents_prefix(n, i + 1);
        assert(n.take(i + 1).drop_last() =~= n.take(i));
        let a = nodes_with_documents(n.take(i));
        let b = nodes_with_documents(n.take(i + 1));
        assert forall|f: int| 0 <= f < a.len() implies b[f] == #[trigger] a[f] by {}
    } else {
        assert(n.take(i) =~= n);
    }
}

} // verus!
