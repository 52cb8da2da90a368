//! The language server's state (documents, root nodes per document, stages,
//! variables and components) and the decisions that answer the editor's
//! requests from it.

use vstd::prelude::*;
use crate::keyed::{
    has_key, inserted, keys_distinct, lemma_inserted_distinct, lemma_lookup_at, lemma_mapped_distinct,
    lemma_mapped_inserted, lookup, mapped, text_view, KeyedList,
};
use crate::types::{Component, GitlabElement, GitlabFile, LSPConfig, ParseResults};

verus! {

/// Entries whose values are texts.
pub type TextEntries = Seq<(Seq<char>, Seq<char>)>;

/// Root nodes per document: document URI, then node key and node text.
pub type NodeSets = Seq<(Seq<char>, TextEntries)>;

/// The documents after storing each file in turn (a later file with the same
/// path replaces an earlier one).
pub open spec fn with_files(d: TextEntries, files: Seq<GitlabFile>) -> TextEntries
    decreases files.len(),
{
    if files.len() == 0 {
        d
    } else {
        inserted(with_files(d, files.drop_last()), files.last().path@, files.last().content@)
    }
}

/// The text of a node; a node without text counts as empty.
pub open spec fn node_text(e: GitlabElement) -> Seq<char> {
    match e.content {
        Some(c) => c@,
        None => Seq::empty(),
    }
}

/// The root nodes after storing node `key` with `text` under document `uri`.
pub open spec fn with_node(n: NodeSets, uri: Seq<char>, key: Seq<char>, text: Seq<char>) -> NodeSets {
    let inner = match lookup(n, uri) {
        Some(m) => m,
        None => Seq::empty(),
    };
    inserted(n, uri, inserted(inner, key, text))
}

/// The root nodes after storing each node in turn under its document.
pub open spec fn with_nodes(n: NodeSets, nodes: Seq<GitlabElement>) -> NodeSets
    decreases nodes.len(),
{
    if nodes.len() == 0 {
        n
    } else {
        let e = nodes.last();
        with_node(with_nodes(n, nodes.drop_last()), e.uri@, e.key@, node_text(e))
    }
}

/// The elements after storing each one in turn under its key.
pub open spec fn with_elements(s: Seq<(Seq<char>, GitlabElement)>, elems: Seq<GitlabElement>) -> Seq<
    (Seq<char>, GitlabElement),
>
    decreases elems.len(),
{
    if elems.len() == 0 {
        s
    } else {
        inserted(with_elements(s, elems.drop_last()), elems.last().key@, elems.last())
    }
}

/// The components after storing each one in turn under its URI.
pub open spec fn with_components(s: Seq<(Seq<char>, Component)>, comps: Seq<Component>) -> Seq<
    (Seq<char>, Component),
>
    decreases comps.len(),
{
    if comps.len() == 0 {
        s
    } else {
        inserted(with_components(s, comps.drop_last()), comps.last().uri@, comps.last())
    }
}

/// Node `i` is the first one without text.
pub open spec fn is_first_without_text(nodes: Seq<GitlabElement>, i: int) -> bool {
    &&& 0 <= i < nodes.len()
    &&& nodes[i].content is None
    &&& forall|j: int| 0 <= j < i ==> (#[trigger] nodes[j]).content is Some
}

/// How many nodes come before the first one without text (all of them when
/// each has text).
pub open spec fn complete_prefix_len(nodes: Seq<GitlabElement>) -> int {
    if exists|i: int| is_first_without_text(nodes, i) {
        choose|i: int| is_first_without_text(nodes, i)
    } else {
        nodes.len() as int
    }
}

/// The root nodes with a (possibly empty) node set for document `uri`: an
/// existing one is kept.
pub open spec fn with_document(n: NodeSets, uri: Seq<char>) -> NodeSets {
    match lookup(n, uri) {
        Some(_) => n,
        None => inserted(n, uri, TextEntries::empty()),
    }
}

/// The root nodes after storing the nodes in turn up to the first one
/// without text; that node's document then gets a node set if it has none.
pub open spec fn with_nodes_up_to_missing_text(n: NodeSets, nodes: Seq<GitlabElement>) -> NodeSets {
    let p = complete_prefix_len(nodes);
    if p == nodes.len() {
        with_nodes(n, nodes)
    } else {
        with_document(with_nodes(n, nodes.take(p)), nodes[p].uri@)
    }
}

/// Each document's node map has distinct keys, and so has the outer map.
pub open spec fn node_lists_wf(l: KeyedList<KeyedList<String>>) -> bool {
    &&& l.wf()
    &&& forall|i: int| 0 <= i < l@.len() ==> (#[trigger] l@[i]).1.wf()
}

/// The node sets of a map of node maps, as texts.
pub open spec fn node_view(l: KeyedList<KeyedList<String>>) -> NodeSets {
    mapped(l@, |x: KeyedList<String>| text_view(x@))
}

/// Stores each file in turn, path to text.
fn store_files(store: &mut KeyedList<String>, files: Vec<GitlabFile>)
    requires
        old(store).wf(),
    ensures
        final(store).wf(),
        text_view(final(store)@) == with_files(text_view(old(store)@), files@),
{
    let mut files = files;
    let ghost all = files@;
    let n = files.len();
    let mut i: usize = 0;
    assert(all.take(0) =~= Seq::<GitlabFile>::empty());
    assert(files@ =~= all.skip(0));
    while i < n
        invariant
            n == all.len(),
            i <= n,
            files@ == all.skip(i as int),
            store.wf(),
            text_view(store@) == with_files(text_view(old(store)@), all.take(i as int)),
        decreases n - i,
    {
        let f = files.remove(0);
        assert(f == all[i as int]);
        assert(files@ =~= all.skip(i + 1));
        proof {
            lemma_mapped_inserted(store@, f.path@, f.content, |v: String| v@);
            assert(all.take(i + 1).drop_last() =~= all.take(i as int));
        }
        store.insert(f.path, f.content);
        i = i + 1;
    }
    assert(all.take(n as int) =~= all);
}

/// Stores each element in turn under its key.
fn store_elements(target: &mut KeyedList<GitlabElement>, elems: Vec<GitlabElement>)
    requires
        old(target).wf(),
    ensures
        final(target).wf(),
        final(target)@ == with_elements(old(target)@, elems@),
{
    let mut elems = elems;
    let ghost all = elems@;
    let n = elems.len();
    let mut i: usize = 0;
    assert(all.take(0) =~= Seq::<GitlabElement>::empty());
    assert(elems@ =~= all.skip(0));
    while i < n
        invariant
            n == all.len(),
            i <= n,
            elems@ == all.skip(i as int),
            target.wf(),
            target@ == with_elements(old(target)@, all.take(i as int)),
        decreases n - i,
    {
        let e = elems.remove(0);
        assert(e == all[i as int]);
        assert(elems@ =~= all.skip(i + 1));
        proof {
            assert(all.take(i + 1).drop_last() =~= all.take(i as int));
        }
        let key = e.key.clone();
        target.insert(key, e);
        i = i + 1;
    }
    assert(all.take(n as int) =~= all);
}

/// Stores each component in turn under its URI.
fn store_components(target: &mut KeyedList<Component>, comps: Vec<Component>)
    requires
        old(target).wf(),
    ensures
        final(target).wf(),
        final(target)@ == with_components(old(target)@, comps@),
{
    let mut comps = comps;
    let ghost all = comps@;
    let n = comps.len();
    let mut i: usize = 0;
    assert(all.take(0) =~= Seq::<Component>::empty());
    assert(comps@ =~= all.skip(0));
    while i < n
        invariant
            n == all.len(),
            i <= n,
            comps@ == all.skip(i as int),
            target.wf(),
            target@ == with_components(old(target)@, all.take(i as int)),
        decreases n - i,
    {
        let c = comps.remove(0);
        assert(c == all[i as int]);
        assert(comps@ =~= all.skip(i + 1));
        proof {
            assert(all.take(i + 1).drop_last() =~= all.take(i as int));
        }
        let key = c.uri.clone();
        target.insert(key, c);
        i = i + 1;
    }
    assert(all.take(n as int) =~= all);
}

/// Stores node `key` with `text` under document `uri`.
fn store_node(nodes: &mut KeyedList<KeyedList<String>>, uri: String, key: String, text: String)
    requires
        node_lists_wf(*old(nodes)),
    ensures
        node_lists_wf(*final(nodes)),
        node_view(*final(nodes)) == with_node(node_view(*old(nodes)), uri@, key@, text@),
{
    let ghost f = |x: KeyedList<String>| text_view(x@);
    let ghost old_list = nodes@;
    let ghost old_view = node_view(*nodes);
    let ghost u = uri@;
    let ghost k = key@;
    let ghost t = text@;
    proof {
        lemma_mapped_distinct(old_list, f, u);
    }
    let found = nodes.find(uri.as_str());
    let mut inner = match found {
        Some(i) => {
            proof {
                lemma_lookup_at(old_list, i as int);
            }
            nodes.replace_value_at(i, KeyedList::new())
        },
        None => KeyedList::new(),
    };
    let ghost mid = nodes@;
    assert(inner.wf());
    assert(text_view(inner@) == match lookup(old_view, u) {
        Some(m) => m,
        None => Seq::<(Seq<char>, Seq<char>)>::empty(),
    }) by {
        if found is None {
            assert(text_view(inner@) =~= Seq::<(Seq<char>, Seq<char>)>::empty());
        }
    }
    proof {
        lemma_mapped_inserted(inner@, k, text, |v: String| v@);
        assert(keys_distinct(mid)) by {
            if let Some(i) = found {
                assert forall|a: int, b: int|
                    0 <= a < mid.len() && 0 <= b < mid.len() && a != b implies #[trigger] mid[a].0
                    != #[trigger] mid[b].0 by {
                    assert(mid[a].0 == old_list[a].0 && mid[b].0 == old_list[b].0);
                }
            }
        }
    }
    inner.insert(key, text);
    let ghost new_inner = inner;
    nodes.insert(uri, inner);
    proof {
        assert(nodes@ == inserted(old_list, u, new_inner)) by {
            if let Some(i) = found {
                assert(mid[i as int].0 == u);
                lemma_lookup_at(mid, i as int);
                assert(nodes@ =~= old_list.update(i as int, (u, new_inner)));
            }
        }
        lemma_mapped_inserted(old_list, u, new_inner, f);
        lemma_inserted_distinct(old_list, u, new_inner);
        assert forall|a: int| 0 <= a < nodes@.len() implies (#[trigger] nodes@[a]).1.wf() by {
            if has_key(old_list, u) {
                let p = crate::keyed::key_index(old_list, u);
                if a != p {
                    assert(nodes@[a] == old_list[a]);
                }
            } else {
                if a < old_list.len() {
                    assert(nodes@[a] == old_list[a]);
                }
            }
        }
    }
}

/// Stores every node under its document; a node without text is stored
/// with empty text.
fn store_all_nodes(nodes: &mut KeyedList<KeyedList<String>>, elems: Vec<GitlabElement>)
    requires
        node_lists_wf(*old(nodes)),
    ensures
        node_lists_wf(*final(nodes)),
        node_view(*final(nodes)) == with_nodes(node_view(*old(nodes)), elems@),
{
    let mut elems = elems;
    let ghost all = elems@;
    let n = elems.len();
    let mut i: usize = 0;
    assert(all.take(0) =~= Seq::<GitlabElement>::empty());
    assert(elems@ =~= all.skip(0));
    while i < n
        invariant
            n == all.len(),
            i <= n,
            elems@ == all.skip(i as int),
            node_lists_wf(*nodes),
            node_view(*nodes) == with_nodes(node_view(*old(nodes)), all.take(i as int)),
        decreases n - i,
    {
        let e = elems.remove(0);
        assert(e == all[i as int]);
        assert(elems@ =~= all.skip(i + 1));
        proof {
            assert(all.take(i + 1).drop_last() =~= all.take(i as int));
        }
        let text = match e.content {
            Some(c) => c,
            None => String::new(),
        };
        store_node(nodes, e.uri, e.key, text);
        i = i + 1;
    }
    assert(all.take(n as int) =~= all);
}

/// Gives document `uri` an empty node set unless it has one.
fn ensure_document(nodes: &mut KeyedList<KeyedList<String>>, uri: String)
    requires
        node_lists_wf(*old(nodes)),
    ensures
        node_lists_wf(*final(nodes)),
        node_view(*final(nodes)) == with_document(node_view(*old(nodes)), uri@),
{
    let ghost f = |x: KeyedList<String>| text_view(x@);
    let ghost old_list = nodes@;
    proof {
        lemma_mapped_distinct(old_list, f, uri@);
    }
    match nodes.find(uri.as_str()) {
        Some(i) => {
            proof {
                lemma_lookup_at(old_list, i as int);
            }
        },
        None => {
            let empty: KeyedList<String> = KeyedList::new();
            let ghost ev = empty;
            proof {
                assert(!has_key(old_list, uri@));
                lemma_mapped_inserted(old_list, uri@, ev, f);
                assert(text_view(ev@) =~= TextEntries::empty());
                lemma_inserted_distinct(old_list, uri@, ev);
            }
            let ghost u = uri@;
            nodes.insert(uri, empty);
            proof {
                assert(nodes@ == inserted(old_list, u, ev));
                assert forall|a: int| 0 <= a < nodes@.len() implies (#[trigger] nodes@[a]).1.wf() by {
                    if a < old_list.len() {
                        assert(nodes@[a] == old_list[a]);
                    }
                }
            }
        },
    }
}

/// Stores the nodes in turn up to the first one without text, whose
/// document then gets a node set if it has none; tells whether every node
/// had text.
fn store_nodes_with_text(nodes: &mut KeyedList<KeyedList<String>>, input: Vec<GitlabElement>) -> (complete: bool)
    requires
        node_lists_wf(*old(nodes)),
    ensures
        node_lists_wf(*final(nodes)),
        complete == (complete_prefix_len(input@) == input@.len()),
        node_view(*final(nodes)) == with_nodes_up_to_missing_text(node_view(*old(nodes)), input@),
{
    let mut elems = input;
    let ghost all = elems@;
    let n = elems.len();
    let mut i: usize = 0;
    assert(all.take(0) =~= Seq::<GitlabElement>::empty());
    assert(elems@ =~= all.skip(0));
    while i < n
        invariant
            all == input@,
            n == all.len(),
            i <= n,
            elems@ == all.skip(i as int),
            forall|j: int| 0 <= j < i ==> (#[trigger] all[j]).content is Some,
            node_lists_wf(*nodes),
            node_view(*nodes) == with_nodes(node_view(*old(nodes)), all.take(i as int)),
        decreases n - i,
    {
        let e = elems.remove(0);
        assert(e == all[i as int]);
        assert(elems@ =~= all.skip(i + 1));
        match e.content {
            Some(c) => {
                proof {
                    assert(all.take(i + 1).drop_last() =~= all.take(i as int));
                }
                store_node(nodes, e.uri, e.key, c);
            },
            None => {
                proof {
                    assert(is_first_without_text(all, i as int));
                    let c = choose|c: int| is_first_without_text(all, c);
                    assert(c == i as int) by {
                        if c < i {
                            assert(all[c].content is Some);
                        } else if c > i {
                            assert(all[i as int].content is Some);
                        }
                    }
                    assert(complete_prefix_len(all) == i as int);
                }
                ensure_document(nodes, e.uri);
                return false;
            },
        }
        i = i + 1;
    }
    proof {
        assert(!exists|c: int| is_first_without_text(all, c)) by {
            if exists|c: int| is_first_without_text(all, c) {
                let c = choose|c: int| is_first_without_text(all, c);
                assert(all[c].content is Some);
            }
        }
        assert(all.take(n as int) =~= all);
    }
    true
}

/// The language server's state.
pub struct LSPHandlers {
    pub(crate) cfg: LSPConfig,
    pub(crate) store: KeyedList<String>,
    pub(crate) nodes: KeyedList<KeyedList<String>>,
    pub(crate) stages: KeyedList<GitlabElement>,
    pub(crate) variables: KeyedList<GitlabElement>,
    pub(crate) components: KeyedList<Component>,
    pub(crate) indexing_in_progress: bool,
}

impl LSPHandlers {
    /// The settings.
    pub closed spec fn config(&self) -> LSPConfig {
        self.cfg
    }

    /// The documents: URI, then text.
    pub closed spec fn documents(&self) -> TextEntries {
        text_view(self.store@)
    }

    /// The root nodes of each document.
    pub closed spec fn node_sets(&self) -> NodeSets {
        mapped(self.nodes@, |l: KeyedList<String>| text_view(l@))
    }

    /// The stages, by name.
    pub closed spec fn stage_entries(&self) -> Seq<(Seq<char>, GitlabElement)> {
        self.stages@
    }

    /// The variables, by name.
    pub closed spec fn variable_entries(&self) -> Seq<(Seq<char>, GitlabElement)> {
        self.variables@
    }

    /// The component definitions, by URI.
    pub closed spec fn component_entries(&self) -> Seq<(Seq<char>, Component)> {
        self.components@
    }

    /// Whether indexing of the workspace has begun.
    pub closed spec fn indexing(&self) -> bool {
        self.indexing_in_progress
    }

    /// Every map has at most one entry per key, the node sets of each
    /// document included.
    pub closed spec fn wf(&self) -> bool {
        &&& self.store.wf()
        &&& self.nodes.wf()
        &&& forall|i: int| 0 <= i < self.nodes@.len() ==> (#[trigger] self.nodes@[i]).1.wf()
        &&& self.stages.wf()
        &&& self.variables.wf()
        &&& self.components.wf()
    }

    /// The well-formed state implies distinct keys in every view.
    pub proof fn lemma_wf_views(&self)
        requires
            self.wf(),
        ensures
            keys_distinct(self.documents()),
            keys_distinct(self.node_sets()),
            forall|i: int|
                0 <= i < self.node_sets().len() ==> keys_distinct(#[trigger] self.node_sets()[i].1),
            keys_distinct(self.stage_entries()),
            keys_distinct(self.variable_entries()),
            keys_distinct(self.component_entries()),
    {
        lemma_mapped_distinct(self.store@, |v: String| v@, Seq::empty());
        lemma_mapped_distinct(self.nodes@, |l: KeyedList<String>| text_view(l@), Seq::empty());
        assert forall|i: int| 0 <= i < self.node_sets().len() implies keys_distinct(
            #[trigger] self.node_sets()[i].1,
        ) by {
            let l = self.nodes@[i].1;
            assert(l.wf());
            lemma_mapped_distinct(l@, |v: String| v@, Seq::empty());
        }
    }

    /// Marks that indexing of the workspace has begun.
    pub fn begin_indexing(&mut self)
        requires
            old(self).wf(),
        ensures
            final(self).wf(),
            final(self).indexing(),
            final(self).config() == old(self).config(),
            final(self).documents() == old(self).documents(),
            final(self).node_sets() == old(self).node_sets(),
            final(self).stage_entries() == old(self).stage_entries(),
            final(self).variable_entries() == old(self).variable_entries(),
            final(self).component_entries() == old(self).component_entries(),
    {
        self.indexing_in_progress = true;
    }

    /// Adds what a parse found while indexing the workspace: every file,
    /// every node (one without text as empty text), stage, variable and
    /// component, later ones replacing earlier ones with the same key.
    pub fn index_parse_results(&mut self, results: ParseResults)
        requires
            old(self).wf(),
        ensures
            final(self).wf(),
            final(self).documents() == with_files(old(self).documents(), results.files@),
            final(self).node_sets() == with_nodes(old(self).node_sets(), results.nodes@),
            final(self).stage_entries() == with_elements(old(self).stage_entries(), results.stages@),
            final(self).variable_entries() == with_elements(
                old(self).variable_entries(),
                results.variables@,
            ),
            final(self).component_entries() == with_components(
                old(self).component_entries(),
                results.components@,
            ),
            final(self).config() == old(self).config(),
            final(self).indexing() == old(self).indexing(),
    {
        let ParseResults { files, nodes, stages, variables, components } = results;
        store_files(&mut self.store, files);
        store_all_nodes(&mut self.nodes, nodes);
        store_elements(&mut self.stages, stages);
        store_elements(&mut self.variables, variables);
        store_components(&mut self.components, components);
    }

    /// Adds what the parse of a newly opened document found: its files, its
    /// nodes up to the first one without text (whose document then gets a
    /// node set if it has none), and (when every node had text) its stages. Returns whether diagnostics are to be generated, which is
    /// so unless a node without text stopped the update.
    pub fn on_open(&mut self, results: Option<ParseResults>) -> (diagnose: bool)
        requires
            old(self).wf(),
        ensures
            final(self).wf(),
            final(self).config() == old(self).config(),
            final(self).indexing() == old(self).indexing(),
            final(self).variable_entries() == old(self).variable_entries(),
            final(self).component_entries() == old(self).component_entries(),
            match results {
                None => {
                    &&& diagnose
                    &&& final(self).documents() == old(self).documents()
                    &&& final(self).node_sets() == old(self).node_sets()
                    &&& final(self).stage_entries() == old(self).stage_entries()
                },
                Some(r) => {
                    let p = complete_prefix_len(r.nodes@);
                    &&& diagnose == (p == r.nodes@.len())
                    &&& final(self).documents() == with_files(old(self).documents(), r.files@)
                    &&& final(self).node_sets() == with_nodes_up_to_missing_text(
                        old(self).node_sets(),
                        r.nodes@,
                    )
                    &&& final(self).stage_entries() == if diagnose {
                        with_elements(old(self).stage_entries(), r.stages@)
                    } else {
                        old(self).stage_entries()
                    }
                },
            },
    {
        match results {
            None => true,
            Some(r) => {
                let ParseResults { files, nodes, stages, variables: _, components: _ } = r;
                store_files(&mut self.store, files);
                if !store_nodes_with_text(&mut self.nodes, nodes) {
                    return false;
                }
                store_elements(&mut self.stages, stages);
                true
            },
        }
    }

    /// Takes in the new text of a changed document: the document's nodes are
    /// dropped, then the parse's files are stored and its nodes up to the
    /// first one without text (whose document then gets a node set if it has
    /// none); when every node had text, a non-empty list of
    /// stages replaces all stages, and the variables and components are added.
    pub fn on_change(&mut self, document_uri: &str, results: Option<ParseResults>)
        requires
            old(self).wf(),
        ensures
            final(self).wf(),
            final(self).config() == old(self).config(),
            final(self).indexing() == old(self).indexing(),
            ({
                let reset = inserted(old(self).node_sets(), document_uri@, TextEntries::empty());
                match results {
                    None => {
                        &&& final(self).documents() == old(self).documents()
                        &&& final(self).node_sets() == reset
                        &&& final(self).stage_entries() == old(self).stage_entries()
                        &&& final(self).variable_entries() == old(self).variable_entries()
                        &&& final(self).component_entries() == old(self).component_entries()
                    },
                    Some(r) => {
                        let p = complete_prefix_len(r.nodes@);
                        let complete = p == r.nodes@.len();
                        &&& final(self).documents() == with_files(old(self).documents(), r.files@)
                        &&& final(self).node_sets() == with_nodes_up_to_missing_text(reset, r.nodes@)
                        &&& final(self).stage_entries() == if complete && r.stages@.len() > 0 {
                            with_elements(Seq::empty(), r.stages@)
                        } else {
                            old(self).stage_entries()
                        }
                        &&& final(self).variable_entries() == if complete {
                            with_elements(old(self).variable_entries(), r.variables@)
                        } else {
                            old(self).variable_entries()
                        }
                        &&& final(self).component_entries() == if complete {
                            with_components(old(self).component_entries(), r.components@)
                        } else {
                            old(self).component_entries()
                        }
                    },
                }
            }),
    {
        let empty: KeyedList<String> = KeyedList::new();
        let ghost ev = empty;
        proof {
            lemma_mapped_inserted(self.nodes@, document_uri@, ev, |x: KeyedList<String>| text_view(x@));
            assert(text_view(ev@) =~= TextEntries::empty());
        }
        let ghost before = self.nodes@;
        self.nodes.insert(String::from_str(document_uri), empty);
        assert(node_lists_wf(self.nodes)) by {
            lemma_inserted_distinct(before, document_uri@, ev);
            assert forall|a: int| 0 <= a < self.nodes@.len() implies (#[trigger] self.nodes@[a]).1.wf() by {
                if has_key(before, document_uri@) {
                    let p = crate::keyed::key_index(before, document_uri@);
                    if a != p {
                        assert(self.nodes@[a] == before[a]);
                    }
                } else {
                    if a < before.len() {
                        assert(self.nodes@[a] == before[a]);
                    }
                }
            }
        }
        match results {
            None => {},
            Some(r) => {
                let ParseResults { files, nodes, stages, variables, components } = r;
                store_files(&mut self.store, files);
                if !store_nodes_with_text(&mut self.nodes, nodes) {
                    return;
                }
                if stages.len() > 0 {
                    self.stages.clear();
                    store_elements(&mut self.stages, stages);
                }
                store_elements(&mut self.variables, variables);
                store_components(&mut self.components, components);
            },
        }
    }

    /// The documents, for lookups that take them.
    pub fn store(&self) -> (r: &KeyedList<String>)
        requires
            self.wf(),
        ensures
            r.wf(),
            text_view(r@) == self.documents(),
    {
        &self.store
    }

    /// The settings.
    pub fn settings(&self) -> (r: &LSPConfig)
        ensures
            *r == self.config(),
    {
        &self.cfg
    }

    /// The text of the document `uri`.
    pub fn document(&self, uri: &str) -> (r: Option<&String>)
        requires
            self.wf(),
        ensures
            match r {
                Some(text) => lookup(self.documents(), uri@) == Some(text@),
                None => lookup(self.documents(), uri@) is None,
            },
    {
        proof {
            lemma_mapped_distinct(self.store@, |v: String| v@, uri@);
        }
        self.store.get(uri)
    }

    /// What the views and the well-formedness of the state are made of.
    pub(crate) proof fn lemma_reveal(&self)
        ensures
            self.documents() == text_view(self.store@),
            self.node_sets() == node_view(self.nodes),
            self.stage_entries() == self.stages@,
            self.variable_entries() == self.variables@,
            self.component_entries() == self.components@,
            self.wf() == (self.store.wf() && node_lists_wf(self.nodes) && self.stages.wf()
                && self.variables.wf() && self.components.wf()),
    {
    }

    /// A server with the given settings and nothing indexed yet.
    pub fn new(cfg: LSPConfig) -> (h: LSPHandlers)
        ensures
            h.wf(),
            h.config() == cfg,
            h.documents() == TextEntries::empty(),
            h.node_sets() == NodeSets::empty(),
            h.stage_entries() == Seq::<(Seq<char>, GitlabElement)>::empty(),
            h.variable_entries() == Seq::<(Seq<char>, GitlabElement)>::empty(),
            h.component_entries() == Seq::<(Seq<char>, Component)>::empty(),
            !h.indexing(),
    {
        let h = LSPHandlers {
            cfg,
            store: KeyedList::new(),
            nodes: KeyedList::new(),
            stages: KeyedList::new(),
            variables: KeyedList::new(),
            components: KeyedList::new(),
            indexing_in_progress: false,
        };
        assert(h.documents() =~= TextEntries::empty());
        assert(h.node_sets() =~= NodeSets::empty());
        h
    }
}

} // verus!
