//! Go-to-definition: where includes, root nodes, stages and variables are
//! defined, found in the server's index.

use vstd::prelude::*;
use crate::handlers::LSPHandlers;
use crate::keyed::{lookup, text_view, KeyedList};
use crate::text::{
    ends_with_text, has_prefix, has_suffix, same_text, starts_with_text, trim_char,
    trim_end_char, trim_start_char, trimmed, trimmed_end, trimmed_start,
};
use crate::types::{
    opt_chars, zero_range, Component, GitlabElement, IncludeInformation, LSPLocation, PositionType,
    Range,
};

verus! {

/// Entry `i` is the first whose key ends with `suffix`.
pub open spec fn first_suffix_index<V>(s: Seq<(Seq<char>, V)>, suffix: Seq<char>, i: int) -> bool {
    &&& 0 <= i < s.len()
    &&& has_suffix(s[i].0, suffix)
    &&& forall|j: int| 0 <= j < i ==> !has_suffix(#[trigger] s[j].0, suffix)
}

/// `r` is the start of the first entry whose key ends with `suffix`, or
/// nothing when no key does.
pub open spec fn suffix_location<V>(s: Seq<(Seq<char>, V)>, suffix: Seq<char>, r: Option<LSPLocation>) -> bool {
    match r {
        Some(loc) => exists|i: int|
            first_suffix_index(s, suffix, i) && loc.uri@ == #[trigger] s[i].0 && loc.range
                == zero_range(),
        None => forall|i: int| 0 <= i < s.len() ==> !has_suffix(#[trigger] s[i].0, suffix),
    }
}

/// A quoted text without its quotes: double quotes first, then single.
pub open spec fn unquoted(s: Seq<char>) -> Seq<char> {
    trimmed(trimmed(s, '"'), '\'')
}

/// The text without surrounding double quotes, then single quotes.
pub fn strip_quotes(s: &str) -> (r: &str)
    ensures
        r@ == unquoted(s@),
{
    trim_char(trim_char(s, '"'), '\'')
}

/// Position of the first entry whose key ends with `suffix`.
fn find_key_with_suffix<V>(list: &KeyedList<V>, suffix: &str) -> (r: Option<usize>)
    ensures
        match r {
            Some(i) => first_suffix_index(list@, suffix@, i as int),
            None => forall|i: int| 0 <= i < list@.len() ==> !has_suffix(#[trigger] list@[i].0, suffix@),
        },
{
    let n = list.len();
    let mut i: usize = 0;
    while i < n
        invariant
            n == list@.len(),
            i <= n,
            forall|j: int| 0 <= j < i ==> !has_suffix(#[trigger] list@[j].0, suffix@),
        decreases n - i,
    {
        if ends_with_text(list.key_at(i).as_str(), suffix) {
            return Some(i);
        }
        i = i + 1;
    }
    None
}

/// The start of the first document whose URI ends with `suffix`.
fn locate_suffix(store: &KeyedList<String>, suffix: &str) -> (r: Option<LSPLocation>)
    ensures
        suffix_location(store@, suffix@, r),
{
    match find_key_with_suffix(store, suffix) {
        Some(i) => {
            let loc = LSPLocation { uri: store.key_at(i).clone(), range: Range::zero() };
            assert(loc.uri@ == store@[i as int].0);
            Some(loc)
        },
        None => None,
    }
}

/// The name under which a remote file with path hash `path_hash` is cached:
/// `_`, the hash, then `.yaml`.
pub open spec fn remote_file_suffix(path_hash: Seq<char>) -> Seq<char> {
    "_"@ + path_hash + ".yaml"@
}

/// Where the definition of an include is.
pub enum IncludeDefinition {
    /// At this location.
    Found(LSPLocation),
    /// Nowhere in the index.
    NotFound,
    /// In the cached copy of the remote file with this URL, found by the
    /// hash of the URL's path.
    RemoteUrl(String),
}

/// The location a found definition gives, if any.
pub open spec fn found_location(d: IncludeDefinition) -> Option<LSPLocation> {
    match d {
        IncludeDefinition::Found(loc) => Some(loc),
        _ => None,
    }
}

/// Which one part of an include entry is present: 1 local, 2 project file,
/// 3 component, 4 remote URL, 5 plain path; 0 when not exactly one is.
pub open spec fn include_kind(info: IncludeInformation) -> int {
    match (info.local, info.remote, info.remote_url, info.basic, info.component) {
        (Some(_), None, None, None, None) => 1,
        (None, Some(_), None, None, None) => 2,
        (None, None, None, None, Some(_)) => 3,
        (None, None, Some(_), None, None) => 4,
        (None, None, None, Some(_), None) => 5,
        _ => 0,
    }
}

/// The result of parsing `text` as an absolute URL: its serialization, or
/// nothing when `text` is not one.
pub uninterp spec fn parsed_url(text: Seq<char>) -> Option<Seq<char>>;

/// Parses `text` with `lsp_types::Url::parse` (the `url` crate's
/// `Url::parse`) and gives `Url::as_str` of the result. The contract only
/// names the result: which texts parse, and to what, is left to that crate.
#[verifier::external_body]
fn parse_url(text: &str) -> (r: Option<String>)
    ensures
        opt_chars(r) == parsed_url(text@),
{
    match lsp_types::Url::parse(text) {
        Ok(url) => Some(url.as_str().to_string()),
        Err(_) => None,
    }
}

/// The URL a definition points to for lookup by its path hash, if any.
pub open spec fn remote_url_of(d: IncludeDefinition) -> Option<Seq<char>> {
    match d {
        IncludeDefinition::RemoteUrl(u) => Some(u@),
        _ => None,
    }
}

/// Entry `i` holds the first component published at `uri`.
pub open spec fn first_component_index(s: Seq<(Seq<char>, Component)>, uri: Seq<char>, i: int) -> bool {
    &&& 0 <= i < s.len()
    &&& s[i].1.uri@ == uri
    &&& forall|j: int| 0 <= j < i ==> (#[trigger] s[j].1).uri@ != uri
}

/// `r` is the start of the cached definition of the first component
/// published at `uri`, or nothing when there is none.
pub open spec fn component_location(s: Seq<(Seq<char>, Component)>, uri: Seq<char>, r: Option<LSPLocation>) -> bool {
    match r {
        Some(loc) => exists|i: int|
            first_component_index(s, uri, i) && loc.uri@ == (#[trigger] s[i].1).local_path@
                && loc.range == zero_range(),
        None => forall|i: int| 0 <= i < s.len() ==> (#[trigger] s[i].1).uri@ != uri,
    }
}

/// The path that a project include's file is cached under:
/// `<project>/<ref>/<file>`, the file unquoted and without leading slashes.
pub open spec fn project_file_path(project: Seq<char>, reference: Seq<char>, file: Seq<char>) -> Seq<char> {
    project + "/"@ + reference + "/"@ + trimmed_start(unquoted(file), '/')
}

/// A suffix search gives the same answer on a map and on its text view.
proof fn lemma_suffix_location_text(s: Seq<(Seq<char>, String)>, suffix: Seq<char>, r: Option<LSPLocation>)
    ensures
        suffix_location(s, suffix, r) == suffix_location(text_view(s), suffix, r),
{
    let t = text_view(s);
    assert(t.len() == s.len());
    assert forall|i: int| 0 <= i < s.len() implies #[trigger] t[i].0 == s[i].0 by {}
    if suffix_location(s, suffix, r) {
        if let Some(loc) = r {
            let i = choose|i: int|
                first_suffix_index(s, suffix, i) && loc.uri@ == #[trigger] s[i].0 && loc.range
                    == zero_range();
            assert(first_suffix_index(t, suffix, i) && loc.uri@ == t[i].0);
        } else {
            assert forall|i: int| 0 <= i < t.len() implies !has_suffix(#[trigger] t[i].0, suffix) by {
                assert(t[i].0 == s[i].0);
            }
        }
    }
    if suffix_location(t, suffix, r) {
        if let Some(loc) = r {
            let i = choose|i: int|
                first_suffix_index(t, suffix, i) && loc.uri@ == #[trigger] t[i].0 && loc.range
                    == zero_range();
            assert forall|j: int| 0 <= j < i implies !has_suffix(#[trigger] s[j].0, suffix) by {
                assert(t[j].0 == s[j].0);
            }
            assert(first_suffix_index(s, suffix, i) && loc.uri@ == s[i].0);
        } else {
            assert forall|i: int| 0 <= i < s.len() implies !has_suffix(#[trigger] s[i].0, suffix) by {
                assert(t[i].0 == s[i].0);
            }
        }
    }
}

/// The start of the cached definition of the first component published at
/// `uri`.
fn locate_component(components: &KeyedList<Component>, uri: &str) -> (r: Option<LSPLocation>)
    ensures
        component_location(components@, uri@, r),
{
    let n = components.len();
    let mut i: usize = 0;
    while i < n
        invariant
            n == components@.len(),
            i <= n,
            forall|j: int| 0 <= j < i ==> (#[trigger] components@[j].1).uri@ != uri@,
        decreases n - i,
    {
        let c = components.value_at(i);
        if same_text(c.uri.as_str(), uri) {
            let loc = LSPLocation { uri: c.local_path.clone(), range: Range::zero() };
            assert(first_component_index(components@, uri@, i as int));
            return Some(loc);
        }
        i = i + 1;
    }
    None
}

/// `r` holds, in order, a location for each hit: the hit's document and the
/// element's range.
pub open spec fn locations_of(r: Seq<LSPLocation>, hits: Seq<(String, GitlabElement)>) -> bool {
    &&& r.len() == hits.len()
    &&& forall|i: int|
        0 <= i < r.len() ==> (#[trigger] r[i]).uri@ == hits[i].0@ && r[i].range == hits[i].1.range
}

/// A root node found in document `uri` is the very line the cursor is on in
/// document `document_uri`: that document's URI ends with `uri` and the line
/// is the node's key followed by a colon.
pub open spec fn is_own_line(document_uri: Seq<char>, line: Seq<char>, uri: Seq<char>, key: Seq<char>) -> bool {
    has_suffix(document_uri, uri) && line == key + ":"@
}

/// Keeps a root-node hit unless it is the line the cursor is on.
pub open spec fn keeps_root_hit(document_uri: Seq<char>, line: Seq<char>, h: (String, GitlabElement)) -> bool {
    !is_own_line(document_uri, line, h.0@, h.1.key@)
}

/// The location of an element found in a document.
fn hit_location(uri: &String, element: &GitlabElement) -> (r: LSPLocation)
    ensures
        r.uri@ == uri@,
        r.range == element.range,
{
    LSPLocation { uri: uri.clone(), range: element.range }
}

/// Locations of root nodes found in the documents (document URI and node,
/// in document order) for go-to-definition, leaving out the node on the very
/// line the cursor is on in document `document_uri`.
pub fn root_node_locations(document_uri: &str, line: &str, hits: &Vec<(String, GitlabElement)>) -> (r: Vec<LSPLocation>)
    ensures
        locations_of(
            r@,
            hits@.filter(|h: (String, GitlabElement)| keeps_root_hit(document_uri@, line@, h)),
        ),
{
    let ghost keep = |h: (String, GitlabElement)| keeps_root_hit(document_uri@, line@, h);
    let mut r: Vec<LSPLocation> = Vec::new();
    let n = hits.len();
    let mut i: usize = 0;
    proof {
        reveal_with_fuel(Seq::filter, 1);
        assert(hits@.take(0) =~= Seq::<(String, GitlabElement)>::empty());
    }
    while i < n
        invariant
            n == hits@.len(),
            i <= n,
            keep == (|h: (String, GitlabElement)| keeps_root_hit(document_uri@, line@, h)),
            locations_of(r@, hits@.take(i as int).filter(keep)),
        decreases n - i,
    {
        let (uri, element) = (&hits[i].0, &hits[i].1);
        proof {
            assert(hits@.take(i + 1) =~= hits@.take(i as int).push(hits@[i as int]));
            hits@.take(i as int).lemma_filter_push(hits@[i as int], keep);
        }
        let mut key_line = element.key.clone();
        key_line.append(":");
        let own = ends_with_text(document_uri, uri.as_str()) && same_text(line, key_line.as_str());
        assert(keep(hits@[i as int]) == !own);
        let ghost before = r@;
        if !own {
            r.push(hit_location(uri, element));
            assert(r@ =~= before.push(r@.last()));
        }
        i = i + 1;
    }
    assert(hits@.take(n as int) =~= hits@);
    r
}

/// Locations of elements found in the documents (document URI and element,
/// in document order).
pub fn element_locations(hits: &Vec<(String, GitlabElement)>) -> (r: Vec<LSPLocation>)
    ensures
        locations_of(r@, hits@),
{
    let mut r: Vec<LSPLocation> = Vec::new();
    let n = hits.len();
    let mut i: usize = 0;
    while i < n
        invariant
            n == hits@.len(),
            i <= n,
            locations_of(r@, hits@.take(i as int)),
        decreases n - i,
    {
        r.push(hit_location(&hits[i].0, &hits[i].1));
        i = i + 1;
    }
    assert(hits@.take(n as int) =~= hits@);
    r
}

/// The lookup that answers a go-to-definition request.
pub enum DefinitionSearch {
    /// The root nodes with this key in every document, less the one on the
    /// cursor's own line.
    RootNodes(String),
    /// The definition of this include entry.
    Include(IncludeInformation),
    /// The root nodes with this key in every document.
    Elements(String),
    /// The stage with this name.
    Stage(String),
    /// The variables whose names begin with this text.
    Variable(String),
}

/// The lookup that answers a go-to-definition request, given what the
/// cursor stands on, the word under it and the variable name under it (each
/// when the line has one): nothing when the position is unknown or the word
/// it needs is missing.
pub fn definition_search(position_type: PositionType, word: Option<&str>, variable: Option<&str>) -> (r: Option<
    DefinitionSearch,
>)
    ensures
        match position_type {
            PositionType::RootNode | PositionType::Extend => match word {
                Some(w) => r matches Some(DefinitionSearch::RootNodes(key)) && key@ == trimmed_end(
                    w@,
                    ':',
                ),
                None => r is None,
            },
            PositionType::Include(info) => r == Some(DefinitionSearch::Include(info)),
            PositionType::Needs(node) => r matches Some(DefinitionSearch::Elements(key)) && key@
                == unquoted(node.name@),
            PositionType::Stage => match word {
                Some(w) => r matches Some(DefinitionSearch::Stage(name)) && name@ == w@,
                None => r is None,
            },
            PositionType::Variable => match variable {
                Some(v) => r matches Some(DefinitionSearch::Variable(name)) && name@ == v@,
                None => r is None,
            },
            PositionType::RuleReference(reference) => r matches Some(DefinitionSearch::Elements(key))
                && key@ == reference.node@,
            PositionType::Unknown => r is None,
        },
{
    match position_type {
        PositionType::RootNode | PositionType::Extend => match word {
            Some(w) => Some(DefinitionSearch::RootNodes(String::from_str(trim_end_char(w, ':')))),
            None => None,
        },
        PositionType::Include(info) => Some(DefinitionSearch::Include(info)),
        PositionType::Needs(node) => Some(DefinitionSearch::Elements(String::from_str(strip_quotes(node.name.as_str())))),
        PositionType::Stage => match word {
            Some(w) => Some(DefinitionSearch::Stage(String::from_str(w))),
            None => None,
        },
        PositionType::Variable => match variable {
            Some(v) => Some(DefinitionSearch::Variable(String::from_str(v))),
            None => None,
        },
        PositionType::RuleReference(reference) => Some(DefinitionSearch::Elements(reference.node)),
        PositionType::Unknown => None,
    }
}

/// The hits of a search over the documents, given what it found in each
/// document in index order (`found`): each document with its element, for
/// the documents where something was found.
pub open spec fn hits_of(documents: Seq<(Seq<char>, Seq<char>)>, found: Seq<Option<GitlabElement>>) -> Seq<
    (Seq<char>, GitlabElement),
>
    decreases found.len(),
{
    if found.len() == 0 {
        Seq::empty()
    } else {
        let k = found.len() - 1;
        let before = hits_of(documents, found.drop_last());
        match found[k] {
            Some(e) => if k < documents.len() {
                before.push((documents[k].0, e))
            } else {
                before
            },
            None => before,
        }
    }
}

/// The hits as text and element.
pub open spec fn hit_view(hits: Seq<(String, GitlabElement)>) -> Seq<(Seq<char>, GitlabElement)> {
    hits.map_values(|h: (String, GitlabElement)| (h.0@, h.1))
}

impl LSPHandlers {
    /// The definition of a local include: the start of the first document whose
    /// URI ends with `local_url` less its leading dots.
    pub fn on_definition_local(local_url: &str, store: &KeyedList<String>) -> (r: Option<LSPLocation>)
        ensures
            suffix_location(store@, trimmed_start(local_url@, '.'), r),
    {
        let local_url = trim_start_char(local_url, '.');
        locate_suffix(store, local_url)
    }

    /// The definition of a remote include whose URL has path hash `path_hash`:
    /// the start of the first document whose URI ends with `_<hash>.yaml`.
    pub fn on_definition_remote(path_hash: &str, store: &KeyedList<String>) -> (r: Option<LSPLocation>)
        ensures
            suffix_location(store@, remote_file_suffix(path_hash@), r),
    {
        let mut suffix = String::from_str("_");
        suffix.append(path_hash);
        suffix.append(".yaml");
        locate_suffix(store, suffix.as_str())
    }

    /// The definition of a plain include whose unquoted path is `path`, given
    /// what parsing `path` as an absolute URL gave: a URL is looked up as a
    /// remote file, anything else as a local one.
    pub fn resolve_plain_include(&self, path: &str, parsed: Option<String>) -> (r: IncludeDefinition)
        requires
            self.wf(),
        ensures
            match parsed {
                Some(u) => remote_url_of(r) == Some(u@),
                None => !(r is RemoteUrl) && suffix_location(
                    self.documents(),
                    trimmed_start(path@, '.'),
                    found_location(r),
                ),
            },
    {
        proof {
            self.lemma_reveal();
        }
        match parsed {
            Some(u) => IncludeDefinition::RemoteUrl(u),
            None => {
                let found = Self::on_definition_local(path, &self.store);
                proof {
                    lemma_suffix_location_text(self.store@, trimmed_start(path@, '.'), found);
                }
                match found {
                    Some(loc) => IncludeDefinition::Found(loc),
                    None => IncludeDefinition::NotFound,
                }
            },
        }
    }

    /// Where the definition of an include entry is: a local file, a project
    /// file, a component or a remote URL, by which one part of the entry is
    /// present; nothing when not exactly one is, or when a project include
    /// lacks its project, ref or file.
    pub fn on_definition_include(&self, info: IncludeInformation) -> (r: IncludeDefinition)
        requires
            self.wf(),
        ensures
            include_kind(info) == 0 ==> r is NotFound,
            include_kind(info) == 1 ==> !(r is RemoteUrl) && suffix_location(
                self.documents(),
                trimmed_start(unquoted(info.local->0.path@), '.'),
                found_location(r),
            ),
            include_kind(info) == 2 ==> !(r is RemoteUrl) && match (
                info.remote->0.project,
                info.remote->0.reference,
                info.remote->0.file,
            ) {
                (Some(p), Some(rf), Some(f)) => suffix_location(
                    self.documents(),
                    project_file_path(p@, rf@, f@),
                    found_location(r),
                ),
                _ => r is NotFound,
            },
            include_kind(info) == 3 ==> !(r is RemoteUrl) && component_location(
                self.component_entries(),
                unquoted(info.component->0.uri@),
                found_location(r),
            ),
            include_kind(info) == 4 ==> remote_url_of(r) == Some(unquoted(info.remote_url->0.path@)),
            include_kind(info) == 5 ==> match parsed_url(unquoted(info.basic->0.path@)) {
                Some(u) => remote_url_of(r) == Some(u),
                None => !(r is RemoteUrl) && suffix_location(
                    self.documents(),
                    trimmed_start(unquoted(info.basic->0.path@), '.'),
                    found_location(r),
                ),
            },
    {
        proof {
            self.lemma_reveal();
        }
        match info {
            IncludeInformation { local: Some(local), remote: None, remote_url: None, basic: None, component: None } => {
                let path = strip_quotes(local.path.as_str());
                let found = Self::on_definition_local(path, &self.store);
                proof {
                    lemma_suffix_location_text(self.store@, trimmed_start(path@, '.'), found);
                }
                match found {
                    Some(loc) => IncludeDefinition::Found(loc),
                    None => IncludeDefinition::NotFound,
                }
            },
            IncludeInformation { local: None, remote: Some(remote), remote_url: None, basic: None, component: None } => {
                match (remote.project, remote.reference, remote.file) {
                    (Some(project), Some(reference), Some(file)) => {
                        let file = trim_start_char(strip_quotes(file.as_str()), '/');
                        let mut path = project;
                        path.append("/");
                        path.append(reference.as_str());
                        path.append("/");
                        path.append(file);
                        let found = locate_suffix(&self.store, path.as_str());
                        proof {
                            lemma_suffix_location_text(self.store@, path@, found);
                        }
                        match found {
                            Some(loc) => IncludeDefinition::Found(loc),
                            None => IncludeDefinition::NotFound,
                        }
                    },
                    _ => IncludeDefinition::NotFound,
                }
            },
            IncludeInformation { local: None, remote: None, remote_url: None, basic: None, component: Some(component) } => {
                let uri = strip_quotes(component.uri.as_str());
                match locate_component(&self.components, uri) {
                    Some(loc) => IncludeDefinition::Found(loc),
                    None => IncludeDefinition::NotFound,
                }
            },
            IncludeInformation { local: None, remote: None, remote_url: Some(remote_url), basic: None, component: None } => {
                IncludeDefinition::RemoteUrl(String::from_str(strip_quotes(remote_url.path.as_str())))
            },
            IncludeInformation { local: None, remote: None, remote_url: None, basic: Some(basic), component: None } => {
                let path = strip_quotes(basic.path.as_str());
                let parsed = parse_url(path);
                let r = self.resolve_plain_include(path, parsed);
                r
            },
            _ => IncludeDefinition::NotFound,
        }
    }

    /// The hits of a search over the documents, given what it found in each
    /// document, in index order: each document where it found an element,
    /// with that element.
    pub fn document_hits(&self, found: Vec<Option<GitlabElement>>) -> (r: Vec<(String, GitlabElement)>)
        requires
            self.wf(),
        ensures
            hit_view(r@) == hits_of(self.documents(), found@),
    {
        proof {
            self.lemma_reveal();
        }
        let ghost docs = self.documents();
        let mut found = found;
        let ghost all = found@;
        let n = found.len();
        let m = self.store.len();
        let mut r: Vec<(String, GitlabElement)> = Vec::new();
        let mut i: usize = 0;
        assert(found@ =~= all.skip(0));
        assert(all.take(0) =~= Seq::<Option<GitlabElement>>::empty());
        assert(hit_view(r@) =~= Seq::<(Seq<char>, GitlabElement)>::empty());
        while i < n
            invariant
                n == all.len(),
                i <= n,
                m == docs.len(),
                docs == text_view(self.store@),
                found@ == all.skip(i as int),
                hit_view(r@) == hits_of(docs, all.take(i as int)),
            decreases n - i,
        {
            let item = found.remove(0);
            assert(item == all[i as int]);
            assert(found@ =~= all.skip(i + 1));
            assert(all.take(i + 1).drop_last() =~= all.take(i as int));
            assert(all.take(i + 1)[i as int] == item);
            let ghost before = r@;
            match item {
                Some(e) => {
                    if i < m {
                        let uri = self.store.key_at(i).clone();
                        assert(uri@ == docs[i as int].0);
                        r.push((uri, e));
                        assert(hit_view(r@) =~= hit_view(before).push((docs[i as int].0, e)));
                    }
                },
                None => {},
            }
            i = i + 1;
        }
        assert(all.take(n as int) =~= all);
        r
    }

    /// The definitions of the variable `word`: the places the parse of the
    /// current document gave (`found`), in their order, then the variables of
    /// the index whose names begin with `word`.
    pub fn variable_definition_locations(&self, found: Vec<GitlabElement>, word: &str) -> (r: Vec<LSPLocation>)
        requires
            self.wf(),
        ensures
            ({
                let indexed = self.variable_entries().filter(
                    |e: (Seq<char>, GitlabElement)| has_prefix(e.0, word@),
                );
                &&& r@.len() == found@.len() + indexed.len()
                &&& forall|i: int|
                    0 <= i < found@.len() ==> (#[trigger] r@[i]).uri == found@[i].uri && r@[i].range
                        == found@[i].range
                &&& forall|i: int|
                    0 <= i < indexed.len() ==> (#[trigger] r@[found@.len() + i]).uri == indexed[i].1.uri
                        && r@[found@.len() + i].range == indexed[i].1.range
            }),
    {
        let mut r: Vec<LSPLocation> = Vec::new();
        let n = found.len();
        let mut i: usize = 0;
        while i < n
            invariant
                n == found@.len(),
                i <= n,
                r@.len() == i,
                forall|k: int|
                    0 <= k < i ==> (#[trigger] r@[k]).uri == found@[k].uri && r@[k].range == found@[k].range,
            decreases n - i,
        {
            let e = &found[i];
            r.push(LSPLocation { uri: e.uri.clone(), range: e.range });
            i = i + 1;
        }
        let mut indexed = self.variable_locations(word);
        let ghost first = r@;
        let ghost second = indexed@;
        r.append(&mut indexed);
        assert(r@ == first + second);
        r
    }

    /// The definition of the stage named `word`: where the stage is defined.
    pub fn stage_location(&self, word: &str) -> (r: Option<LSPLocation>)
        requires
            self.wf(),
        ensures
            match lookup(self.stage_entries(), word@) {
                Some(el) => r matches Some(loc) && loc.uri == el.uri && loc.range == el.range,
                None => r is None,
            },
    {
        proof {
            self.lemma_reveal();
        }
        match self.stages.get(word) {
            Some(el) => Some(LSPLocation { uri: el.uri.clone(), range: el.range }),
            None => None,
        }
    }

    /// Where the variables whose names begin with `word` are defined, in
    /// index order.
    pub fn variable_locations(&self, word: &str) -> (r: Vec<LSPLocation>)
        requires
            self.wf(),
        ensures
            ({
                let found = self.variable_entries().filter(
                    |e: (Seq<char>, GitlabElement)| has_prefix(e.0, word@),
                );
                &&& r@.len() == found.len()
                &&& forall|i: int|
                    0 <= i < r@.len() ==> (#[trigger] r@[i]).uri == found[i].1.uri && r@[i].range
                        == found[i].1.range
            }),
    {
        proof {
            self.lemma_reveal();
        }
        let ghost keep = |e: (Seq<char>, GitlabElement)| has_prefix(e.0, word@);
        let ghost all = self.variables@;
        let mut r: Vec<LSPLocation> = Vec::new();
        let n = self.variables.len();
        let mut i: usize = 0;
        proof {
            reveal_with_fuel(Seq::filter, 1);
            assert(all.take(0) =~= Seq::<(Seq<char>, GitlabElement)>::empty());
        }
        while i < n
            invariant
                n == all.len(),
                all == self.variables@,
                keep == (|e: (Seq<char>, GitlabElement)| has_prefix(e.0, word@)),
                i <= n,
                r@.len() == all.take(i as int).filter(keep).len(),
                forall|k: int|
                    0 <= k < r@.len() ==> (#[trigger] r@[k]).uri == all.take(i as int).filter(keep)[k].1.uri
                        && r@[k].range == all.take(i as int).filter(keep)[k].1.range,
            decreases n - i,
        {
            proof {
                assert(all.take(i + 1) =~= all.take(i as int).push(all[i as int]));
                all.take(i as int).lemma_filter_push(all[i as int], keep);
            }
            let name = self.variables.key_at(i);
            let ghost before = r@;
            let matches = starts_with_text(name.as_str(), word);
            assert(keep(all[i as int]) == matches);
            if matches {
                let el = self.variables.value_at(i);
                r.push(LSPLocation { uri: el.uri.clone(), range: el.range });
                assert(r@ =~= before.push(r@.last()));
            }
            i = i + 1;
        }
        assert(all.take(n as int) =~= all);
        r
    }

}

} // verus!
