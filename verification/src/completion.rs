//! Completions: stages, variables, templates to extend, jobs to need, nodes
//! to reference and component inputs, each filtered by the word before the
//! cursor and placed over that word and the one after it.

use vstd::prelude::*;
use vstd::string::StringSliceAdditionalSpecFns;
use crate::handlers::{node_view, LSPHandlers, NodeSets, TextEntries};
use crate::keyed::{lookup, text_view, KeyedList};
use crate::text::{
    contains_text, has_infix, has_prefix, same_text, starts_with_char, starts_with_text,
};
use crate::types::{
    opt_chars, Component, ComponentInput, IncludeInformation, LSPCompletion, LSPLocation,
    LSPPosition, PositionType, Range,
};

verus! {

/// The length of a text in bytes (UTF-8), as `str::len` gives it.
pub open spec fn byte_len(s: &str) -> int {
    s.spec_bytes().len() as usize as int
}

/// A byte length that `u32` can hold.
pub open spec fn fits_u32(n: int) -> bool {
    n <= u32::MAX
}

/// The range a completion replaces: from `before` bytes left of the cursor
/// (no further left than the line's start when `saturating`) to `after` bytes
/// right of it.
pub open spec fn completion_range(position: LSPPosition, before: int, after: int, saturating: bool) -> Range {
    Range {
        start: LSPPosition {
            line: position.line,
            character: if saturating && before > position.character {
                0
            } else {
                (position.character - before) as u32
            },
        },
        end: LSPPosition { line: position.line, character: (position.character + after) as u32 },
    }
}

/// Computing the replaced range for lengths `before` and `after` stays
/// within `u32`: the start does not go below zero (unless it saturates) and
/// the end does not pass `u32::MAX`, for the lengths that fit in `u32`.
pub open spec fn range_computable(position: LSPPosition, before: int, after: int, saturating: bool) -> bool {
    fits_u32(before) ==> ((saturating || before <= position.character) && (fits_u32(after)
        ==> position.character + after <= u32::MAX))
}

/// `r` offers, in order, the labelled items with their details, each over
/// `range` in the current document.
pub open spec fn completions_are(r: Seq<LSPCompletion>, items: Seq<(Seq<char>, Option<Seq<char>>)>, range: Range) -> bool {
    &&& r.len() == items.len()
    &&& forall|i: int|
        0 <= i < r.len() ==> (#[trigger] r[i]).label@ == items[i].0 && opt_chars(r[i].details)
            == items[i].1 && r[i].location.uri@ == Seq::<char>::empty() && r[i].location.range
            == range
}

/// What is offered for `items` when the word before the cursor has
/// `before` bytes and the one after it `after` bytes: the items over the
/// replaced range, or nothing when a length does not fit in `u32`.
pub open spec fn offers(
    r: Seq<LSPCompletion>,
    items: Seq<(Seq<char>, Option<Seq<char>>)>,
    position: LSPPosition,
    before: int,
    after: int,
    saturating: bool,
) -> bool {
    if fits_u32(before) && fits_u32(after) {
        completions_are(r, items, completion_range(position, before, after, saturating))
    } else {
        r.len() == 0
    }
}

/// A key is offered for `word`: it holds `word` (begins with it when
/// `prefix_only`).
pub open spec fn key_matches(key: Seq<char>, word: Seq<char>, prefix_only: bool) -> bool {
    if prefix_only {
        has_prefix(key, word)
    } else {
        has_infix(key, word)
    }
}

/// The keys of `entries` offered for `word`, in order, without details.
pub open spec fn key_items<V>(entries: Seq<(Seq<char>, V)>, word: Seq<char>, prefix_only: bool) -> Seq<
    (Seq<char>, Option<Seq<char>>),
> {
    entries.filter(|e: (Seq<char>, V)| key_matches(e.0, word, prefix_only)).map_values(
        |e: (Seq<char>, V)| (e.0, None::<Seq<char>>),
    )
}

/// Which root nodes a completion offers.
pub enum NodeFilter {
    /// Hidden templates, whose keys begin with a dot.
    Templates,
    /// Jobs, whose keys do not begin with a dot.
    Jobs,
    /// Every node.
    Any,
}

/// The key begins with a dot.
pub open spec fn is_hidden(key: Seq<char>) -> bool {
    key.len() > 0 && key[0] == '.'
}

/// A node key is offered for `word` under `filter`.
pub open spec fn node_matches(filter: NodeFilter, key: Seq<char>, word: Seq<char>) -> bool {
    has_infix(key, word) && match filter {
        NodeFilter::Templates => is_hidden(key),
        NodeFilter::Jobs => !is_hidden(key),
        NodeFilter::Any => true,
    }
}

/// The root nodes of all documents in one sequence, document by document.
pub open spec fn flat_nodes(n: NodeSets) -> TextEntries
    decreases n.len(),
{
    if n.len() == 0 {
        Seq::empty()
    } else {
        flat_nodes(n.drop_last()) + n.last().1
    }
}

/// A node's text shown as a YAML block.
pub open spec fn yaml_details(text: Seq<char>) -> Seq<char> {
    "```yaml\r\n"@ + text + "\r\n```"@
}

/// The nodes offered for `word` under `filter`, in order, each with its text
/// as details.
pub open spec fn node_items(n: NodeSets, word: Seq<char>, filter: NodeFilter) -> Seq<(Seq<char>, Option<Seq<char>>)> {
    flat_nodes(n).filter(|e: (Seq<char>, Seq<char>)| node_matches(filter, e.0, word)).map_values(
        |e: (Seq<char>, Seq<char>)| (e.0, Some(yaml_details(e.1))),
    )
}

/// Filtering then mapping a sequence grown by one element.
pub(crate) proof fn lemma_items_push<A, B>(s: Seq<A>, e: A, p: spec_fn(A) -> bool, g: spec_fn(A) -> B)
    ensures
        s.push(e).filter(p).map_values(g) == if p(e) {
            s.filter(p).map_values(g).push(g(e))
        } else {
            s.filter(p).map_values(g)
        },
{
    s.lemma_filter_push(e, p);
    if p(e) {
        assert(s.filter(p).push(e).map_values(g) =~= s.filter(p).map_values(g).push(g(e)));
    }
}

/// The replaced range, computed when it is computable; `None` when a length
/// does not fit in `u32` or the range cannot be computed.
fn replaced_range(position: LSPPosition, word: &str, after: &str, saturating: bool) -> (r: Option<Range>)
    ensures
        match r {
            Some(range) => {
                &&& fits_u32(byte_len(word))
                &&& fits_u32(byte_len(after))
                &&& range_computable(position, byte_len(word), byte_len(after), saturating)
                &&& range == completion_range(
                    position,
                    byte_len(word),
                    byte_len(after),
                    saturating,
                )
            },
            None => !(fits_u32(byte_len(word)) && fits_u32(
                byte_len(after),
            )) || !range_computable(
                position,
                byte_len(word),
                byte_len(after),
                saturating,
            ),
        },
{
    let before = word.len();
    let after_len = after.len();
    if before > 4294967295usize || after_len > 4294967295usize {
        return None;
    }
    let b = before as u32;
    let a = after_len as u32;
    assert(b as int == byte_len(word) && a as int == byte_len(after));
    let start = if b <= position.character {
        position.character - b
    } else if saturating {
        0
    } else {
        return None;
    };
    if a > u32::MAX - position.character {
        return None;
    }
    assert(start as int == completion_range(position, b as int, a as int, saturating).start.character as int);
    Some(
        Range {
            start: LSPPosition { line: position.line, character: start },
            end: LSPPosition { line: position.line, character: position.character + a },
        },
    )
}

/// A completion of `label` over `range` in the current document.
fn completion(label: String, details: Option<String>, range: Range) -> (c: LSPCompletion)
    ensures
        c.label == label,
        c.details == details,
        c.location.uri@ == Seq::<char>::empty(),
        c.location.range == range,
{
    LSPCompletion { label, details, location: LSPLocation { uri: String::new(), range } }
}

/// The keys of `list` offered for `word`, over `range`.
fn key_completions<V>(list: &KeyedList<V>, word: &str, prefix_only: bool, range: Range) -> (r: Vec<LSPCompletion>)
    ensures
        completions_are(r@, key_items(list@, word@, prefix_only), range),
{
    let ghost all = list@;
    let ghost p = |e: (Seq<char>, V)| key_matches(e.0, word@, prefix_only);
    let ghost g = |e: (Seq<char>, V)| (e.0, None::<Seq<char>>);
    let mut r: Vec<LSPCompletion> = Vec::new();
    let n = list.len();
    let mut i: usize = 0;
    proof {
        reveal_with_fuel(Seq::filter, 1);
        assert(all.take(0) =~= Seq::<(Seq<char>, V)>::empty());
    }
    while i < n
        invariant
            n == all.len(),
            all == list@,
            p == (|e: (Seq<char>, V)| key_matches(e.0, word@, prefix_only)),
            g == (|e: (Seq<char>, V)| (e.0, None::<Seq<char>>)),
            i <= n,
            completions_are(r@, all.take(i as int).filter(p).map_values(g), range),
        decreases n - i,
    {
        proof {
            assert(all.take(i + 1) =~= all.take(i as int).push(all[i as int]));
            lemma_items_push(all.take(i as int), all[i as int], p, g);
        }
        let key = list.key_at(i);
        let matches = if prefix_only {
            starts_with_text(key.as_str(), word)
        } else {
            contains_text(key.as_str(), word)
        };
        assert(matches == p(all[i as int]));
        let ghost before = r@;
        if matches {
            r.push(completion(key.clone(), None, range));
            assert(r@ =~= before.push(r@.last()));
        }
        i = i + 1;
    }
    assert(all.take(n as int) =~= all);
    r
}

/// Documents' nodes in one sequence: the first documents' nodes and then
/// the next document's.
proof fn lemma_flat_nodes_take(n: NodeSets, i: int)
    requires
        0 <= i < n.len(),
    ensures
        flat_nodes(n.take(i + 1)) == flat_nodes(n.take(i)) + n[i].1,
{
    assert(n.take(i + 1).drop_last() =~= n.take(i));
}

/// The nodes offered for `word` under `filter`, over `range`.
fn node_completions(nodes: &KeyedList<KeyedList<String>>, word: &str, filter: NodeFilter, range: Range) -> (r: Vec<LSPCompletion>)
    ensures
        completions_are(r@, node_items(node_view(*nodes), word@, filter), range),
{
    let ghost all = node_view(*nodes);
    let ghost p = |e: (Seq<char>, Seq<char>)| node_matches(filter, e.0, word@);
    let ghost g = |e: (Seq<char>, Seq<char>)| (e.0, Some(yaml_details(e.1)));
    let mut r: Vec<LSPCompletion> = Vec::new();
    let n = nodes.len();
    let mut i: usize = 0;
    proof {
        reveal_with_fuel(Seq::filter, 1);
        assert(all.take(0) =~= NodeSets::empty());
    }
    while i < n
        invariant
            n == all.len(),
            all == node_view(*nodes),
            p == (|e: (Seq<char>, Seq<char>)| node_matches(filter, e.0, word@)),
            g == (|e: (Seq<char>, Seq<char>)| (e.0, Some(yaml_details(e.1)))),
            i <= n,
            completions_are(r@, flat_nodes(all.take(i as int)).filter(p).map_values(g), range),
        decreases n - i,
    {
        let inner = nodes.value_at(i);
        let ghost done = flat_nodes(all.take(i as int));
        let ghost texts = text_view(inner@);
        assert(texts == all[i as int].1);
        let m = inner.len();
        let mut j: usize = 0;
        assert(done + texts.take(0) =~= done);
        while j < m
            invariant
                m == texts.len(),
                texts == text_view(inner@),
                p == (|e: (Seq<char>, Seq<char>)| node_matches(filter, e.0, word@)),
                g == (|e: (Seq<char>, Seq<char>)| (e.0, Some(yaml_details(e.1)))),
                j <= m,
                completions_are(r@, (done + texts.take(j as int)).filter(p).map_values(g), range),
            decreases m - j,
        {
            proof {
                assert(done + texts.take(j + 1) =~= (done + texts.take(j as int)).push(texts[j as int]));
                lemma_items_push(done + texts.take(j as int), texts[j as int], p, g);
            }
            let key = inner.key_at(j);
            let hidden = starts_with_char(key.as_str(), '.');
            let holds = contains_text(key.as_str(), word);
            let matches = holds && match filter {
                NodeFilter::Templates => hidden,
                NodeFilter::Jobs => !hidden,
                NodeFilter::Any => true,
            };
            assert(matches == p(texts[j as int]));
            let ghost before = r@;
            if matches {
                let mut details = String::from_str("```yaml\r\n");
                details.append(inner.value_at(j).as_str());
                details.append("\r\n```");
                r.push(completion(key.clone(), Some(details), range));
                assert(r@ =~= before.push(r@.last()));
            }
            j = j + 1;
        }
        proof {
            assert(texts.take(m as int) =~= texts);
            lemma_flat_nodes_take(all, i as int);
        }
        i = i + 1;
    }
    assert(all.take(n as int) =~= all);
    r
}

/// The cursor stands on the key of some input.
pub open spec fn any_key_hovered(inputs: Seq<ComponentInput>) -> bool {
    exists|i: int| 0 <= i < inputs.len() && (#[trigger] inputs[i]).hovered
}

/// Input `i` is the first whose value the cursor stands on.
pub open spec fn first_value_hovered(inputs: Seq<ComponentInput>, i: int) -> bool {
    &&& 0 <= i < inputs.len()
    &&& inputs[i].value_plain.hovered
    &&& forall|j: int| 0 <= j < i ==> !(#[trigger] inputs[j]).value_plain.hovered
}

/// Input `i` is the first with key `key`.
pub open spec fn first_input_with_key(inputs: Seq<ComponentInput>, key: Seq<char>, i: int) -> bool {
    &&& 0 <= i < inputs.len()
    &&& inputs[i].key@ == key
    &&& forall|j: int| 0 <= j < i ==> (#[trigger] inputs[j]).key@ != key
}

/// Some input has key `key`.
pub open spec fn key_used(inputs: Seq<ComponentInput>, key: Seq<char>) -> bool {
    exists|j: int| 0 <= j < inputs.len() && (#[trigger] inputs[j]).key@ == key
}

/// The inputs of a component's definition that are not yet given and begin
/// with `word`, with their details.
pub open spec fn input_items(defined: Seq<ComponentInput>, given: Seq<ComponentInput>, word: Seq<char>) -> Seq<
    (Seq<char>, Option<Seq<char>>),
> {
    defined.filter(|i: ComponentInput| !key_used(given, i.key@) && has_prefix(i.key@, word)).map_values(
        |i: ComponentInput| (i.key@, Some(i.details@)),
    )
}

/// The allowed values that begin with `word`.
pub open spec fn option_items(options: Seq<String>, word: Seq<char>) -> Seq<(Seq<char>, Option<Seq<char>>)> {
    options.filter(|o: String| has_prefix(o@, word)).map_values(|o: String| (o@, None::<Seq<char>>))
}

/// What completing inside a component's `inputs:` offers: when the cursor is
/// on an input key, the defined inputs not yet given that begin with
/// `key_word`; else, when it is on an input's value and the definition
/// restricts that input's values, those that begin with `value_word`;
/// nothing when the component's definition is not indexed.
pub open spec fn component_items(
    entries: Seq<(Seq<char>, Component)>,
    component: Component,
    key_word: Seq<char>,
    value_word: Seq<char>,
) -> Seq<(Seq<char>, Option<Seq<char>>)> {
    let given = component.inputs@;
    match lookup(entries, component.uri@) {
        None => Seq::empty(),
        Some(defined) => if any_key_hovered(given) {
            input_items(defined.inputs@, given, key_word)
        } else if exists|i: int| first_value_hovered(given, i) {
            let i = choose|i: int| first_value_hovered(given, i);
            if exists|k: int| first_input_with_key(defined.inputs@, given[i].key@, k) {
                let k = choose|k: int| first_input_with_key(defined.inputs@, given[i].key@, k);
                match defined.inputs@[k].options {
                    Some(options) => option_items(options@, value_word),
                    None => Seq::empty(),
                }
            } else {
                Seq::empty()
            }
        } else {
            Seq::empty()
        },
    }
}

/// Whether the cursor stands on the key of some input.
fn find_key_hovered(inputs: &Vec<ComponentInput>) -> (r: bool)
    ensures
        r == any_key_hovered(inputs@),
{
    let n = inputs.len();
    let mut i: usize = 0;
    while i < n
        invariant
            n == inputs@.len(),
            i <= n,
            forall|j: int| 0 <= j < i ==> !(#[trigger] inputs@[j]).hovered,
        decreases n - i,
    {
        if inputs[i].hovered {
            return true;
        }
        i = i + 1;
    }
    false
}

/// The first input whose value the cursor stands on.
fn find_value_hovered(inputs: &Vec<ComponentInput>) -> (r: Option<usize>)
    ensures
        match r {
            Some(i) => first_value_hovered(inputs@, i as int),
            None => !exists|i: int| first_value_hovered(inputs@, i),
        },
{
    let n = inputs.len();
    let mut i: usize = 0;
    while i < n
        invariant
            n == inputs@.len(),
            i <= n,
            forall|j: int| 0 <= j < i ==> !(#[trigger] inputs@[j]).value_plain.hovered,
        decreases n - i,
    {
        if inputs[i].value_plain.hovered {
            return Some(i);
        }
        i = i + 1;
    }
    None
}

/// The first input with key `key`.
pub(crate) fn find_input(inputs: &Vec<ComponentInput>, key: &str) -> (r: Option<usize>)
    ensures
        match r {
            Some(i) => first_input_with_key(inputs@, key@, i as int),
            None => !key_used(inputs@, key@),
        },
{
    let n = inputs.len();
    let mut i: usize = 0;
    while i < n
        invariant
            n == inputs@.len(),
            i <= n,
            forall|j: int| 0 <= j < i ==> (#[trigger] inputs@[j]).key@ != key@,
        decreases n - i,
    {
        if same_text(inputs[i].key.as_str(), key) {
            return Some(i);
        }
        i = i + 1;
    }
    None
}

/// The defined inputs not yet given that begin with `word`, over `range`.
fn input_completions(defined: &Vec<ComponentInput>, given: &Vec<ComponentInput>, word: &str, range: Range) -> (r: Vec<LSPCompletion>)
    ensures
        completions_are(r@, input_items(defined@, given@, word@), range),
{
    let ghost all = defined@;
    let ghost p = |i: ComponentInput| !key_used(given@, i.key@) && has_prefix(i.key@, word@);
    let ghost g = |i: ComponentInput| (i.key@, Some(i.details@));
    let mut r: Vec<LSPCompletion> = Vec::new();
    let n = defined.len();
    let mut i: usize = 0;
    proof {
        reveal_with_fuel(Seq::filter, 1);
        assert(all.take(0) =~= Seq::<ComponentInput>::empty());
    }
    while i < n
        invariant
            n == all.len(),
            all == defined@,
            p == (|i: ComponentInput| !key_used(given@, i.key@) && has_prefix(i.key@, word@)),
            g == (|i: ComponentInput| (i.key@, Some(i.details@))),
            i <= n,
            completions_are(r@, all.take(i as int).filter(p).map_values(g), range),
        decreases n - i,
    {
        proof {
            assert(all.take(i + 1) =~= all.take(i as int).push(all[i as int]));
            lemma_items_push(all.take(i as int), all[i as int], p, g);
        }
        let input = &defined[i];
        let unused = find_input(given, input.key.as_str()).is_none();
        proof {
            if !unused {
                let k = choose|k: int| first_input_with_key(given@, input.key@, k);
            }
        }
        let matches = unused && starts_with_text(input.key.as_str(), word);
        assert(matches == p(all[i as int]));
        let ghost before = r@;
        if matches {
            r.push(completion(input.key.clone(), Some(input.details.clone()), range));
            assert(r@ =~= before.push(r@.last()));
        }
        i = i + 1;
    }
    assert(all.take(n as int) =~= all);
    r
}

/// The allowed values that begin with `word`, over `range`.
fn option_completions(options: &Vec<String>, word: &str, range: Range) -> (r: Vec<LSPCompletion>)
    ensures
        completions_are(r@, option_items(options@, word@), range),
{
    let ghost all = options@;
    let ghost p = |o: String| has_prefix(o@, word@);
    let ghost g = |o: String| (o@, None::<Seq<char>>);
    let mut r: Vec<LSPCompletion> = Vec::new();
    let n = options.len();
    let mut i: usize = 0;
    proof {
        reveal_with_fuel(Seq::filter, 1);
        assert(all.take(0) =~= Seq::<String>::empty());
    }
    while i < n
        invariant
            n == all.len(),
            all == options@,
            p == (|o: String| has_prefix(o@, word@)),
            g == (|o: String| (o@, None::<Seq<char>>)),
            i <= n,
            completions_are(r@, all.take(i as int).filter(p).map_values(g), range),
        decreases n - i,
    {
        proof {
            assert(all.take(i + 1) =~= all.take(i as int).push(all[i as int]));
            lemma_items_push(all.take(i as int), all[i as int], p, g);
        }
        let option = &options[i];
        let matches = starts_with_text(option.as_str(), word);
        assert(matches == p(all[i as int]));
        let ghost before = r@;
        if matches {
            r.push(completion(option.clone(), None, range));
            assert(r@ =~= before.push(r@.last()));
        }
        i = i + 1;
    }
    assert(all.take(n as int) =~= all);
    r
}

/// The answer to a completion request for `items`: nothing exactly when
/// there is something to offer but the replaced range cannot be computed
/// (the lengths are those of the words before and after the cursor), and
/// otherwise what `offers` gives.
pub open spec fn answered(
    r: Option<Vec<LSPCompletion>>,
    items: Seq<(Seq<char>, Option<Seq<char>>)>,
    position: LSPPosition,
    before: int,
    after: int,
    saturating: bool,
) -> bool {
    let stuck = items.len() > 0 && !range_computable(position, before, after, saturating);
    match r {
        Some(v) => !stuck && offers(v@, items, position, before, after, saturating),
        None => stuck,
    }
}

/// Whether the replaced range over `word` and `after` can be computed.
fn range_is_computable(position: LSPPosition, word: &str, after: &str, saturating: bool) -> (b: bool)
    ensures
        b == range_computable(position, byte_len(word), byte_len(after), saturating),
{
    let before = word.len();
    let after_len = after.len();
    if before > 4294967295usize {
        return true;
    }
    let b = before as u32;
    assert(b as int == byte_len(word));
    if !saturating && b > position.character {
        return false;
    }
    if after_len > 4294967295usize {
        return true;
    }
    let a = after_len as u32;
    assert(a as int == byte_len(after));
    a <= u32::MAX - position.character
}

/// The answer when the replaced range could not be made: `found` are the
/// completions at a placeholder range.
fn unplaced(found: Vec<LSPCompletion>, position: LSPPosition, word: &str, after: &str, saturating: bool) -> (r: Option<
    Vec<LSPCompletion>,
>)
    ensures
        r is None <==> (found@.len() > 0 && !range_computable(
            position,
            byte_len(word),
            byte_len(after),
            saturating,
        )),
        r matches Some(v) ==> v@.len() == 0,
{
    if found.len() == 0 || range_is_computable(position, word, after, saturating) {
        Some(Vec::new())
    } else {
        None
    }
}

impl LSPHandlers {
    /// The component's completions, over `range`.
    fn component_completions(&self, component: &Component, key_word: &str, value_word: &str, range: Range) -> (r: Vec<
        LSPCompletion,
    >)
        requires
            self.wf(),
        ensures
            completions_are(
                r@,
                component_items(self.component_entries(), *component, key_word@, value_word@),
                range,
            ),
    {
        proof {
            self.lemma_reveal();
        }
        if find_key_hovered(&component.inputs) {
            match self.components.get(component.uri.as_str()) {
                Some(defined) => input_completions(&defined.inputs, &component.inputs, key_word, range),
                None => Vec::new(),
            }
        } else {
            match find_value_hovered(&component.inputs) {
                Some(i) => {
                    let hovered = &component.inputs[i];
                    match self.components.get(component.uri.as_str()) {
                        Some(defined) => {
                            match find_input(&defined.inputs, hovered.key.as_str()) {
                                Some(k) => {
                                    match &defined.inputs[k].options {
                                        Some(options) => option_completions(options, value_word, range),
                                        None => Vec::new(),
                                    }
                                },
                                None => Vec::new(),
                            }
                        },
                        None => Vec::new(),
                    }
                },
                None => Vec::new(),
            }
        }
    }

    /// Completions inside a component's `inputs:`: on an input key, the
    /// inputs its definition has and the document does not give yet that
    /// begin with `key_word`, with their details, over `key_word` and
    /// `key_after`; on an input's value, the values its definition allows
    /// that begin with `value_word`, over `value_word` and `value_after`.
    /// The words are those before and after the cursor, split at white space
    /// (and, for `key_after` and `value_word`, also at a colon). Nothing when
    /// there is something to offer but the range cannot be computed.
    pub fn on_completion_component(
        &self,
        component: &Component,
        key_word: &str,
        key_after: &str,
        value_word: &str,
        value_after: &str,
        position: LSPPosition,
    ) -> (r: Option<Vec<LSPCompletion>>)
        requires
            self.wf(),
        ensures
            ({
                let items = component_items(
                    self.component_entries(),
                    *component,
                    key_word@,
                    value_word@,
                );
                if any_key_hovered(component.inputs@) {
                    answered(r, items, position, byte_len(key_word), byte_len(key_after), false)
                } else {
                    answered(r, items, position, byte_len(value_word), byte_len(value_after), false)
                }
            }),
    {
        let key_case = find_key_hovered(&component.inputs);
        let (word, after) = if key_case {
            (key_word, key_after)
        } else {
            (value_word, value_after)
        };
        match replaced_range(position, word, after, false) {
            Some(range) => Some(self.component_completions(component, key_word, value_word, range)),
            None => unplaced(
                self.component_completions(component, key_word, value_word, Range::zero()),
                position,
                word,
                after,
                false,
            ),
        }
    }

    /// Stages whose names hold `word` (the word before the cursor; `after`
    /// is the word after it), in index order, over the two words.
    pub fn on_completion_stages(&self, word: &str, after: &str, position: LSPPosition) -> (r: Option<
        Vec<LSPCompletion>,
    >)
        requires
            self.wf(),
        ensures
            answered(
                r,
                key_items(self.stage_entries(), word@, false),
                position,
                byte_len(word),
                byte_len(after),
                false,
            ),
    {
        proof {
            self.lemma_reveal();
        }
        match replaced_range(position, word, after, false) {
            Some(range) => Some(key_completions(&self.stages, word, false, range)),
            None => unplaced(key_completions(&self.stages, word, false, Range::zero()), position, word, after, false),
        }
    }

    /// Variables whose names begin with `word`, in index order, over the word
    /// before the cursor and the word `after` it.
    pub fn on_completion_variables(&self, word: &str, after: &str, position: LSPPosition) -> (r: Option<
        Vec<LSPCompletion>,
    >)
        requires
            self.wf(),
        ensures
            answered(
                r,
                key_items(self.variable_entries(), word@, true),
                position,
                byte_len(word),
                byte_len(after),
                false,
            ),
    {
        proof {
            self.lemma_reveal();
        }
        match replaced_range(position, word, after, false) {
            Some(range) => Some(key_completions(&self.variables, word, true, range)),
            None => unplaced(key_completions(&self.variables, word, true, Range::zero()), position, word, after, false),
        }
    }

    /// Templates (nodes whose keys begin with a dot) whose keys hold `word`,
    /// with their text as details; the start of the range stops at the line's
    /// start.
    pub fn on_completion_extends(&self, word: &str, after: &str, position: LSPPosition) -> (r: Option<
        Vec<LSPCompletion>,
    >)
        requires
            self.wf(),
        ensures
            answered(
                r,
                node_items(self.node_sets(), word@, NodeFilter::Templates),
                position,
                byte_len(word),
                byte_len(after),
                true,
            ),
    {
        proof {
            self.lemma_reveal();
        }
        match replaced_range(position, word, after, true) {
            Some(range) => Some(node_completions(&self.nodes, word, NodeFilter::Templates, range)),
            None => unplaced(
                node_completions(&self.nodes, word, NodeFilter::Templates, Range::zero()),
                position,
                word,
                after,
                true,
            ),
        }
    }

    /// Nodes whose keys hold `word`, with their text as details, to complete
    /// a `!reference`.
    pub fn on_completion_rule_reference(&self, word: &str, after: &str, position: LSPPosition) -> (r: Option<
        Vec<LSPCompletion>,
    >)
        requires
            self.wf(),
        ensures
            answered(
                r,
                node_items(self.node_sets(), word@, NodeFilter::Any),
                position,
                byte_len(word),
                byte_len(after),
                false,
            ),
    {
        proof {
            self.lemma_reveal();
        }
        match replaced_range(position, word, after, false) {
            Some(range) => Some(node_completions(&self.nodes, word, NodeFilter::Any, range)),
            None => unplaced(
                node_completions(&self.nodes, word, NodeFilter::Any, Range::zero()),
                position,
                word,
                after,
                false,
            ),
        }
    }

    /// Jobs (nodes whose keys do not begin with a dot) whose keys hold
    /// `word`, with their text as details, to complete a `needs:` entry.
    pub fn on_completion_needs(&self, word: &str, after: &str, position: LSPPosition) -> (r: Option<
        Vec<LSPCompletion>,
    >)
        requires
            self.wf(),
        ensures
            answered(
                r,
                node_items(self.node_sets(), word@, NodeFilter::Jobs),
                position,
                byte_len(word),
                byte_len(after),
                false,
            ),
    {
        proof {
            self.lemma_reveal();
        }
        match replaced_range(position, word, after, false) {
            Some(range) => Some(node_completions(&self.nodes, word, NodeFilter::Jobs, range)),
            None => unplaced(
                node_completions(&self.nodes, word, NodeFilter::Jobs, Range::zero()),
                position,
                word,
                after,
                false,
            ),
        }
    }
}

/// Which completions answer a request.
pub enum CompletionKind {
    Stages,
    Extends,
    Variables,
    Needs,
    /// The inputs of this component, or the values of the hovered one.
    Component(Component),
    RuleReference,
}

/// Which completions answer a request, given what the cursor stands on:
/// nothing on a root node, an unknown position, or an include entry that is
/// not a component alone.
pub fn completion_kind(position_type: PositionType) -> (r: Option<CompletionKind>)
    ensures
        match position_type {
            PositionType::Stage => r matches Some(CompletionKind::Stages),
            PositionType::Extend => r matches Some(CompletionKind::Extends),
            PositionType::Variable => r matches Some(CompletionKind::Variables),
            PositionType::Needs(_) => r matches Some(CompletionKind::Needs),
            PositionType::Include(info) => match (info.local, info.remote, info.remote_url, info.basic, info.component) {
                (None, None, None, None, Some(c)) => r == Some(CompletionKind::Component(c)),
                _ => r is None,
            },
            PositionType::RuleReference(_) => r matches Some(CompletionKind::RuleReference),
            _ => r is None,
        },
{
    match position_type {
        PositionType::Stage => Some(CompletionKind::Stages),
        PositionType::Extend => Some(CompletionKind::Extends),
        PositionType::Variable => Some(CompletionKind::Variables),
        PositionType::Needs(_) => Some(CompletionKind::Needs),
        PositionType::Include(IncludeInformation { local: None, remote: None, remote_url: None, basic: None, component: Some(c) }) => {
            Some(CompletionKind::Component(c))
        },
        PositionType::RuleReference(_) => Some(CompletionKind::RuleReference),
        _ => None,
    }
}

/// The words around the cursor on its line, split as each kind of
/// completion needs them.
pub struct CursorWords<'a> {
    /// Before the cursor, up to white space.
    pub before: &'a str,
    /// After the cursor, up to white space.
    pub after: &'a str,
    /// Before the cursor, up to a `$`.
    pub variable_before: &'a str,
    /// Before the cursor, up to a quote.
    pub quoted_before: &'a str,
    /// After the cursor, up to a quote.
    pub quoted_after: &'a str,
    /// Before the cursor, up to white space or a colon.
    pub value_before: &'a str,
    /// After the cursor, up to white space or a colon.
    pub key_after: &'a str,
}

/// The answer to a completion request.
pub enum CompletionAnswer {
    /// No answer: the cursor stands where nothing is completed.
    Unanswered,
    /// These completions.
    Completions(Vec<LSPCompletion>),
    /// There is something to offer, but the range it would replace leaves
    /// `u32`.
    RangeOutsideU32,
}

/// `r` answers with `items` as `answered` says, `RangeOutsideU32` standing
/// for no completions.
pub open spec fn answers_with(
    r: CompletionAnswer,
    items: Seq<(Seq<char>, Option<Seq<char>>)>,
    position: LSPPosition,
    before: int,
    after: int,
    saturating: bool,
) -> bool {
    match r {
        CompletionAnswer::Completions(v) => answered(Some(v), items, position, before, after, saturating),
        CompletionAnswer::RangeOutsideU32 => answered(None, items, position, before, after, saturating),
        CompletionAnswer::Unanswered => false,
    }
}

/// The answer that a completion helper's result gives.
fn answer(r: Option<Vec<LSPCompletion>>) -> (a: CompletionAnswer)
    ensures
        match r {
            Some(v) => a == CompletionAnswer::Completions(v),
            None => a is RangeOutsideU32,
        },
{
    match r {
        Some(v) => CompletionAnswer::Completions(v),
        None => CompletionAnswer::RangeOutsideU32,
    }
}

impl LSPHandlers {
    /// The answer to a completion request, given what the cursor stands on
    /// and the words around it: stages, templates, variables, jobs, a
    /// component's inputs or values, or nodes to reference, each over the
    /// words it is split by; no answer elsewhere.
    pub fn on_completion(&self, position_type: PositionType, words: &CursorWords, position: LSPPosition) -> (r:
        CompletionAnswer)
        requires
            self.wf(),
        ensures
            match position_type {
                PositionType::Stage => answers_with(
                    r,
                    key_items(self.stage_entries(), words.before@, false),
                    position,
                    byte_len(words.before),
                    byte_len(words.after),
                    false,
                ),
                PositionType::Extend => answers_with(
                    r,
                    node_items(self.node_sets(), words.before@, NodeFilter::Templates),
                    position,
                    byte_len(words.before),
                    byte_len(words.after),
                    true,
                ),
                PositionType::Variable => answers_with(
                    r,
                    key_items(self.variable_entries(), words.variable_before@, true),
                    position,
                    byte_len(words.variable_before),
                    byte_len(words.after),
                    false,
                ),
                PositionType::Needs(_) => answers_with(
                    r,
                    node_items(self.node_sets(), words.before@, NodeFilter::Jobs),
                    position,
                    byte_len(words.before),
                    byte_len(words.after),
                    false,
                ),
                PositionType::Include(info) => match (
                    info.local,
                    info.remote,
                    info.remote_url,
                    info.basic,
                    info.component,
                ) {
                    (None, None, None, None, Some(c)) => {
                        let items = component_items(
                            self.component_entries(),
                            c,
                            words.before@,
                            words.value_before@,
                        );
                        if any_key_hovered(c.inputs@) {
                            answers_with(r, items, position, byte_len(words.before), byte_len(words.key_after), false)
                        } else {
                            answers_with(r, items, position, byte_len(words.value_before), byte_len(words.after), false)
                        }
                    },
                    _ => r is Unanswered,
                },
                PositionType::RuleReference(_) => answers_with(
                    r,
                    node_items(self.node_sets(), words.quoted_before@, NodeFilter::Any),
                    position,
                    byte_len(words.quoted_before),
                    byte_len(words.quoted_after),
                    false,
                ),
                _ => r is Unanswered,
            },
    {
        match completion_kind(position_type) {
            None => CompletionAnswer::Unanswered,
            Some(CompletionKind::Stages) => answer(self.on_completion_stages(words.before, words.after, position)),
            Some(CompletionKind::Extends) => answer(self.on_completion_extends(words.before, words.after, position)),
            Some(CompletionKind::Variables) => answer(
                self.on_completion_variables(words.variable_before, words.after, position),
            ),
            Some(CompletionKind::Needs) => answer(self.on_completion_needs(words.before, words.after, position)),
            Some(CompletionKind::Component(c)) => answer(
                self.on_completion_component(
                    &c,
                    words.before,
                    words.key_after,
                    words.value_before,
                    words.after,
                    position,
                ),
            ),
            Some(CompletionKind::RuleReference) => answer(
                self.on_completion_rule_reference(words.quoted_before, words.quoted_after, position),
            ),
        }
    }
}

} // verus!
