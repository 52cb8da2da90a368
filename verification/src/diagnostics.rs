//! Diagnostics of a document: templates it extends, stages it uses and jobs
//! it needs that are defined nowhere, and component inputs that the
//! component's definition does not have or whose values it does not allow.

use vstd::prelude::*;
use crate::completion::{find_input, first_input_with_key, key_used, lemma_items_push};
use crate::handlers::{node_lists_wf, node_view, LSPHandlers, NodeSets};
use crate::keyed::{has_key, lemma_mapped_distinct, lookup, KeyedList};
use crate::text::same_text;
use crate::types::{
    ComponentInput, GitlabComponentElement, GitlabElement, GitlabInputElement, LSPDiagnostic,
    Range,
};

verus! {

/// The texts joined with `sep` between each two.
pub open spec fn joined(items: Seq<Seq<char>>, sep: Seq<char>) -> Seq<char>
    decreases items.len(),
{
    if items.len() == 0 {
        Seq::empty()
    } else if items.len() == 1 {
        items[0]
    } else {
        joined(items.drop_last(), sep) + sep + items.last()
    }
}

/// `r` reports, in order, each expected range with its message.
pub open spec fn diagnostics_are(r: Seq<LSPDiagnostic>, expected: Seq<(Range, Seq<char>)>) -> bool {
    &&& r.len() == expected.len()
    &&& forall|i: int|
        0 <= i < r.len() ==> (#[trigger] r[i]).range == expected[i].0 && r[i].message@
            == expected[i].1
}

/// Some document defines a root node named `key`.
pub open spec fn defined_anywhere(nodes: NodeSets, key: Seq<char>) -> bool {
    exists|i: int| 0 <= i < nodes.len() && has_key(#[trigger] nodes[i].1, key)
}

/// The message for an undefined template.
pub open spec fn missing_rule_message(key: Seq<char>) -> Seq<char> {
    "Rule: "@ + key + " does not exist."@
}

/// The message for an undefined stage.
pub open spec fn missing_stage_message(key: Seq<char>) -> Seq<char> {
    "Stage: "@ + key + " does not exist."@
}

/// The message for an undefined job.
pub open spec fn missing_job_message(key: Seq<char>) -> Seq<char> {
    "Job: "@ + key + " does not exist."@
}

/// The message for an input key the component's definition lacks.
pub open spec fn invalid_key_message(keys: Seq<Seq<char>>) -> Seq<char> {
    "Invalid input key. Key needs to be one of: '"@ + joined(keys, ", "@) + "'."@
}

/// The message for an input value the definition does not allow.
pub open spec fn invalid_value_message(options: Seq<Seq<char>>) -> Seq<char> {
    "Invalid input value. Value needs to be one of: '"@ + joined(options, ", "@) + "'."@
}

/// The message for an input without the value the definition asks for.
pub open spec fn missing_value_message(options: Seq<Seq<char>>) -> Seq<char> {
    "No value. Value needs to be one of: '"@ + joined(options, ", "@) + "'."@
}

/// The texts of a list of strings.
pub open spec fn texts(s: Seq<String>) -> Seq<Seq<char>> {
    s.map_values(|x: String| x@)
}

/// The keys of a component's defined inputs.
pub open spec fn input_keys(defined: Seq<ComponentInput>) -> Seq<Seq<char>> {
    defined.map_values(|i: ComponentInput| i.key@)
}

/// `value` is one of `options`.
pub open spec fn is_option(options: Seq<String>, value: Seq<char>) -> bool {
    exists|i: int| 0 <= i < options.len() && (#[trigger] options[i])@ == value
}

/// What checking a given input against its definition reports: when the
/// definition restricts the values, a value that is not allowed, or a missing
/// value.
pub open spec fn spec_check(given: GitlabInputElement, definition: ComponentInput) -> Seq<(Range, Seq<char>)> {
    match definition.options {
        Some(options) => match given.value_plain {
            Some(value) => match value.content {
                Some(v) => if is_option(options@, v@) {
                    Seq::empty()
                } else {
                    seq![(value.range, invalid_value_message(texts(options@)))]
                },
                None => Seq::empty(),
            },
            None => seq![(given.range, missing_value_message(texts(options@)))],
        },
        None => Seq::empty(),
    }
}

/// What checking one given input against a component's defined inputs
/// reports: the check against the first definition with its key, or an
/// invalid key when there is none.
pub open spec fn input_check(defined: Seq<ComponentInput>, given: GitlabInputElement) -> Seq<(Range, Seq<char>)> {
    if key_used(defined, given.key@) {
        let k = choose|k: int| first_input_with_key(defined, given.key@, k);
        spec_check(given, defined[k])
    } else {
        seq![(given.range, invalid_key_message(input_keys(defined)))]
    }
}

/// What checking each given input in turn reports.
pub open spec fn inputs_check(defined: Seq<ComponentInput>, given: Seq<GitlabInputElement>) -> Seq<(Range, Seq<char>)>
    decreases given.len(),
{
    if given.len() == 0 {
        Seq::empty()
    } else {
        inputs_check(defined, given.drop_last()) + input_check(defined, given.last())
    }
}

/// What checking each use of a component in turn reports; a component whose
/// definition is not indexed is not checked.
pub open spec fn components_check(
    entries: Seq<(Seq<char>, crate::types::Component)>,
    uses: Seq<GitlabComponentElement>,
) -> Seq<(Range, Seq<char>)>
    decreases uses.len(),
{
    if uses.len() == 0 {
        Seq::empty()
    } else {
        components_check(entries, uses.drop_last()) + match lookup(entries, uses.last().key@) {
            Some(c) => inputs_check(c.inputs@, uses.last().inputs@),
            None => Seq::empty(),
        }
    }
}

/// An `extends` entry is reported: it stands in document `uri` and names a
/// template defined nowhere.
pub open spec fn reports_rule(uri: Seq<char>, nodes: NodeSets, e: GitlabElement) -> bool {
    e.uri@ == uri && !defined_anywhere(nodes, e.key@)
}

/// The report of an undefined template.
pub open spec fn rule_report(e: GitlabElement) -> (Range, Seq<char>) {
    (e.range, missing_rule_message(e.key@))
}

/// The `extends` of document `uri` that name a template defined nowhere.
pub open spec fn rule_diagnostics(uri: Seq<char>, nodes: NodeSets, extends: Seq<GitlabElement>) -> Seq<
    (Range, Seq<char>),
> {
    extends.filter(|e: GitlabElement| reports_rule(uri, nodes, e)).map_values(
        |e: GitlabElement| rule_report(e),
    )
}

/// A used stage is reported: it is not defined.
pub open spec fn reports_stage(stages: Seq<(Seq<char>, GitlabElement)>, e: GitlabElement) -> bool {
    !has_key(stages, e.key@)
}

/// The report of an undefined stage.
pub open spec fn stage_report(e: GitlabElement) -> (Range, Seq<char>) {
    (e.range, missing_stage_message(e.key@))
}

/// The stages used that are not defined.
pub open spec fn stage_diagnostics(stages: Seq<(Seq<char>, GitlabElement)>, used: Seq<GitlabElement>) -> Seq<
    (Range, Seq<char>),
> {
    used.filter(|e: GitlabElement| reports_stage(stages, e)).map_values(
        |e: GitlabElement| stage_report(e),
    )
}

/// A needed job is reported: no document defines it.
pub open spec fn reports_job(nodes: NodeSets, e: GitlabElement) -> bool {
    !defined_anywhere(nodes, e.key@)
}

/// The report of an undefined job.
pub open spec fn job_report(e: GitlabElement) -> (Range, Seq<char>) {
    (e.range, missing_job_message(e.key@))
}

/// The jobs needed that are defined nowhere.
pub open spec fn job_diagnostics(nodes: NodeSets, needs: Seq<GitlabElement>) -> Seq<(Range, Seq<char>)> {
    needs.filter(|e: GitlabElement| reports_job(nodes, e)).map_values(|e: GitlabElement| job_report(e))
}

/// A diagnostic on `range` with `message`.
fn diagnostic(range: Range, message: String) -> (d: LSPDiagnostic)
    ensures
        d.range == range,
        d.message == message,
{
    LSPDiagnostic { range, message }
}

/// `head`, then `middle`, then `tail`.
fn message(head: &str, middle: &str, tail: &str) -> (m: String)
    ensures
        m@ == head@ + middle@ + tail@,
{
    let mut m = String::from_str(head);
    m.append(middle);
    m.append(tail);
    m
}

/// The texts of `items` joined with `, `.
fn join_texts(items: &Vec<String>) -> (r: String)
    ensures
        r@ == joined(texts(items@), ", "@),
{
    let ghost all = texts(items@);
    let mut r = String::new();
    let n = items.len();
    let mut i: usize = 0;
    assert(all.take(0) =~= Seq::<Seq<char>>::empty());
    while i < n
        invariant
            n == items@.len(),
            all == texts(items@),
            i <= n,
            r@ == joined(all.take(i as int), ", "@),
        decreases n - i,
    {
        assert(all.take(i + 1).drop_last() =~= all.take(i as int));
        if i > 0 {
            r.append(", ");
        } else {
            assert(all.take(1) =~= seq![all[0]]);
        }
        r.append(items[i].as_str());
        i = i + 1;
    }
    assert(all.take(n as int) =~= all);
    r
}

/// The keys of a component's defined inputs joined with `, `.
fn join_keys(defined: &Vec<ComponentInput>) -> (r: String)
    ensures
        r@ == joined(input_keys(defined@), ", "@),
{
    let ghost all = input_keys(defined@);
    let mut r = String::new();
    let n = defined.len();
    let mut i: usize = 0;
    assert(all.take(0) =~= Seq::<Seq<char>>::empty());
    while i < n
        invariant
            n == defined@.len(),
            all == input_keys(defined@),
            i <= n,
            r@ == joined(all.take(i as int), ", "@),
        decreases n - i,
    {
        assert(all.take(i + 1).drop_last() =~= all.take(i as int));
        if i > 0 {
            r.append(", ");
        } else {
            assert(all.take(1) =~= seq![all[0]]);
        }
        r.append(defined[i].key.as_str());
        i = i + 1;
    }
    assert(all.take(n as int) =~= all);
    r
}

/// Whether `value` is one of `options`.
fn find_option(options: &Vec<String>, value: &str) -> (r: bool)
    ensures
        r == is_option(options@, value@),
{
    let n = options.len();
    let mut i: usize = 0;
    while i < n
        invariant
            n == options@.len(),
            i <= n,
            forall|j: int| 0 <= j < i ==> (#[trigger] options@[j])@ != value@,
        decreases n - i,
    {
        if same_text(options[i].as_str(), value) {
            return true;
        }
        i = i + 1;
    }
    false
}

/// Checks input `i` given to a component against the definition of that
/// input: when the definition restricts the values, reports a value that is
/// not allowed, or a missing value, listing the allowed values.
pub fn generate_component_diagnostics_from_spec(
    i: &GitlabInputElement,
    spec_definition: &ComponentInput,
    diagnostics: &mut Vec<LSPDiagnostic>,
)
    ensures
        appended(old(diagnostics)@, final(diagnostics)@, spec_check(*i, *spec_definition)),
{
    let ghost start = diagnostics@;
    match &spec_definition.options {
        Some(options) => match &i.value_plain {
            Some(value) => match &value.content {
                Some(v) => {
                    if !find_option(options, v.as_str()) {
                        let list = join_texts(options);
                        let m = message("Invalid input value. Value needs to be one of: '", list.as_str(), "'.");
                        diagnostics.push(diagnostic(value.range, m));
                    }
                },
                None => {},
            },
            None => {
                let list = join_texts(options);
                let m = message("No value. Value needs to be one of: '", list.as_str(), "'.");
                diagnostics.push(diagnostic(i.range, m));
            },
        },
        None => {},
    }
    assert(diagnostics@.subrange(0, start.len() as int) =~= start);
}

/// `new` is `old` followed by diagnostics that report `expected`.
pub open spec fn appended(old: Seq<LSPDiagnostic>, new: Seq<LSPDiagnostic>, expected: Seq<(Range, Seq<char>)>) -> bool {
    &&& old.len() <= new.len()
    &&& new.subrange(0, old.len() as int) == old
    &&& diagnostics_are(new.subrange(old.len() as int, new.len() as int), expected)
}

/// Appending twice appends both reports.
proof fn lemma_appended_trans(
    a: Seq<LSPDiagnostic>,
    b: Seq<LSPDiagnostic>,
    c: Seq<LSPDiagnostic>,
    e1: Seq<(Range, Seq<char>)>,
    e2: Seq<(Range, Seq<char>)>,
)
    requires
        appended(a, b, e1),
        appended(b, c, e2),
    ensures
        appended(a, c, e1 + e2),
{
    assert(c.subrange(0, a.len() as int) =~= b.subrange(0, a.len() as int));
    let tail = c.subrange(a.len() as int, c.len() as int);
    assert forall|i: int| 0 <= i < tail.len() implies (#[trigger] tail[i]).range == (e1 + e2)[i].0
        && tail[i].message@ == (e1 + e2)[i].1 by {
        if i < e1.len() {
            assert(tail[i] == b.subrange(a.len() as int, b.len() as int)[i]);
        } else {
            assert(tail[i] == c.subrange(b.len() as int, c.len() as int)[i - e1.len()]);
        }
    }
}

/// Appending nothing.
proof fn lemma_appended_none(a: Seq<LSPDiagnostic>)
    ensures
        appended(a, a, Seq::empty()),
{
    assert(a.subrange(0, a.len() as int) =~= a);
}

/// Appending one diagnostic.
proof fn lemma_appended_push(a: Seq<LSPDiagnostic>, b: Seq<LSPDiagnostic>, e: Seq<(Range, Seq<char>)>, d: LSPDiagnostic)
    requires
        appended(a, b, e),
    ensures
        appended(a, b.push(d), e.push((d.range, d.message@))),
{
    assert(b.push(d).subrange(0, a.len() as int) =~= b.subrange(0, a.len() as int));
    assert(b.push(d).subrange(a.len() as int, b.len() + 1int) =~= b.subrange(a.len() as int, b.len() as int).push(d));
}

/// Whether some document defines a root node named `key`.
fn find_defined(nodes: &KeyedList<KeyedList<String>>, key: &str) -> (r: bool)
    requires
        node_lists_wf(*nodes),
    ensures
        r == defined_anywhere(node_view(*nodes), key@),
{
    let ghost all = node_view(*nodes);
    let n = nodes.len();
    let mut i: usize = 0;
    while i < n
        invariant
            n == all.len(),
            all == node_view(*nodes),
            node_lists_wf(*nodes),
            i <= n,
            forall|j: int| 0 <= j < i ==> !has_key(#[trigger] all[j].1, key@),
        decreases n - i,
    {
        let inner = nodes.value_at(i);
        assert(inner.wf());
        proof {
            lemma_mapped_distinct(inner@, |v: String| v@, key@);
        }
        if inner.contains_key(key) {
            assert(has_key(all[i as int].1, key@));
            return true;
        }
        i = i + 1;
    }
    false
}

impl LSPHandlers {
    /// Reports the templates that the `extends` of document `document_uri`
    /// name and no document defines.
    fn check_extends(&self, document_uri: &str, extends: &Vec<GitlabElement>, diagnostics: &mut Vec<LSPDiagnostic>)
        requires
            self.wf(),
        ensures
            appended(old(diagnostics)@, final(diagnostics)@, rule_diagnostics(document_uri@, self.node_sets(), extends@)),
    {
        proof {
            self.lemma_reveal();
        }
        let ghost all = extends@;
        let ghost p = |e: GitlabElement| reports_rule(document_uri@, self.node_sets(), e);
        let ghost g = |e: GitlabElement| rule_report(e);
        let n = extends.len();
        let mut i: usize = 0;
        proof {
            reveal_with_fuel(Seq::filter, 1);
            assert(all.take(0) =~= Seq::<GitlabElement>::empty());
            lemma_appended_none(diagnostics@);
        }
        while i < n
            invariant
                n == all.len(),
                all == extends@,
                self.wf(),
                self.node_sets() == node_view(self.nodes),
                node_lists_wf(self.nodes),
                p == (|e: GitlabElement| reports_rule(document_uri@, self.node_sets(), e)),
                g == (|e: GitlabElement| rule_report(e)),
                i <= n,
                appended(old(diagnostics)@, diagnostics@, all.take(i as int).filter(p).map_values(g)),
            decreases n - i,
        {
            proof {
                assert(all.take(i + 1) =~= all.take(i as int).push(all[i as int]));
                lemma_items_push(all.take(i as int), all[i as int], p, g);
            }
            let e = &extends[i];
            let report = same_text(e.uri.as_str(), document_uri) && !find_defined(&self.nodes, e.key.as_str());
            assert(report == p(all[i as int]));
            if report {
                let d = diagnostic(e.range, message("Rule: ", e.key.as_str(), " does not exist."));
                proof {
                    lemma_appended_push(old(diagnostics)@, diagnostics@, all.take(i as int).filter(p).map_values(g), d);
                }
                diagnostics.push(d);
            }
            i = i + 1;
        }
        assert(all.take(n as int) =~= all);
    }

    /// Reports the stages used that are not defined.
    fn check_stages(&self, stages: &Vec<GitlabElement>, diagnostics: &mut Vec<LSPDiagnostic>)
        requires
            self.wf(),
        ensures
            appended(old(diagnostics)@, final(diagnostics)@, stage_diagnostics(self.stage_entries(), stages@)),
    {
        proof {
            self.lemma_reveal();
        }
        let ghost all = stages@;
        let ghost p = |e: GitlabElement| reports_stage(self.stage_entries(), e);
        let ghost g = |e: GitlabElement| stage_report(e);
        let n = stages.len();
        let mut i: usize = 0;
        proof {
            reveal_with_fuel(Seq::filter, 1);
            assert(all.take(0) =~= Seq::<GitlabElement>::empty());
            lemma_appended_none(diagnostics@);
        }
        while i < n
            invariant
                n == all.len(),
                all == stages@,
                self.wf(),
                self.stage_entries() == self.stages@,
                self.stages.wf(),
                p == (|e: GitlabElement| reports_stage(self.stage_entries(), e)),
                g == (|e: GitlabElement| stage_report(e)),
                i <= n,
                appended(old(diagnostics)@, diagnostics@, all.take(i as int).filter(p).map_values(g)),
            decreases n - i,
        {
            proof {
                assert(all.take(i + 1) =~= all.take(i as int).push(all[i as int]));
                lemma_items_push(all.take(i as int), all[i as int], p, g);
            }
            let e = &stages[i];
            let report = !self.stages.contains_key(e.key.as_str());
            assert(report == p(all[i as int]));
            if report {
                let d = diagnostic(e.range, message("Stage: ", e.key.as_str(), " does not exist."));
                proof {
                    lemma_appended_push(old(diagnostics)@, diagnostics@, all.take(i as int).filter(p).map_values(g), d);
                }
                diagnostics.push(d);
            }
            i = i + 1;
        }
        assert(all.take(n as int) =~= all);
    }

    /// Reports the jobs needed that no document defines.
    fn check_needs(&self, needs: &Vec<GitlabElement>, diagnostics: &mut Vec<LSPDiagnostic>)
        requires
            self.wf(),
        ensures
            appended(old(diagnostics)@, final(diagnostics)@, job_diagnostics(self.node_sets(), needs@)),
    {
        proof {
            self.lemma_reveal();
        }
        let ghost all = needs@;
        let ghost p = |e: GitlabElement| reports_job(self.node_sets(), e);
        let ghost g = |e: GitlabElement| job_report(e);
        let n = needs.len();
        let mut i: usize = 0;
        proof {
            reveal_with_fuel(Seq::filter, 1);
            assert(all.take(0) =~= Seq::<GitlabElement>::empty());
            lemma_appended_none(diagnostics@);
        }
        while i < n
            invariant
                n == all.len(),
                all == needs@,
                self.wf(),
                self.node_sets() == node_view(self.nodes),
                node_lists_wf(self.nodes),
                p == (|e: GitlabElement| reports_job(self.node_sets(), e)),
                g == (|e: GitlabElement| job_report(e)),
                i <= n,
                appended(old(diagnostics)@, diagnostics@, all.take(i as int).filter(p).map_values(g)),
            decreases n - i,
        {
            proof {
                assert(all.take(i + 1) =~= all.take(i as int).push(all[i as int]));
                lemma_items_push(all.take(i as int), all[i as int], p, g);
            }
            let e = &needs[i];
            let report = !find_defined(&self.nodes, e.key.as_str());
            assert(report == p(all[i as int]));
            if report {
                let d = diagnostic(e.range, message("Job: ", e.key.as_str(), " does not exist."));
                proof {
                    lemma_appended_push(old(diagnostics)@, diagnostics@, all.take(i as int).filter(p).map_values(g), d);
                }
                diagnostics.push(d);
            }
            i = i + 1;
        }
        assert(all.take(n as int) =~= all);
    }
}

/// Checks each input given to a component against the component's defined
/// inputs.
fn check_inputs(defined: &Vec<ComponentInput>, given: &Vec<GitlabInputElement>, diagnostics: &mut Vec<LSPDiagnostic>)
    ensures
        appended(old(diagnostics)@, final(diagnostics)@, inputs_check(defined@, given@)),
{
    let ghost all = given@;
    let n = given.len();
    let mut i: usize = 0;
    proof {
        assert(all.take(0) =~= Seq::<GitlabInputElement>::empty());
        lemma_appended_none(diagnostics@);
    }
    while i < n
        invariant
            n == all.len(),
            all == given@,
            i <= n,
            appended(old(diagnostics)@, diagnostics@, inputs_check(defined@, all.take(i as int))),
        decreases n - i,
    {
        assert(all.take(i + 1).drop_last() =~= all.take(i as int));
        let input = &given[i];
        let ghost before = diagnostics@;
        match find_input(defined, input.key.as_str()) {
            Some(k) => {
                proof {
                    assert(defined@[k as int].key@ == input.key@);
                    assert(key_used(defined@, input.key@));
                    let c = choose|c: int| first_input_with_key(defined@, input.key@, c);
                    assert(c == k as int) by {
                        if c < k as int {
                            assert(defined@[c].key@ != input.key@);
                        } else if c > k as int {
                            assert(defined@[k as int].key@ != input.key@);
                        }
                    }
                }
                generate_component_diagnostics_from_spec(input, &defined[k], diagnostics);
            },
            None => {
                let keys = join_keys(defined);
                let m = message("Invalid input key. Key needs to be one of: '", keys.as_str(), "'.");
                let d = diagnostic(input.range, m);
                proof {
                    lemma_appended_none(before);
                    lemma_appended_push(before, before, Seq::empty(), d);
                    assert(Seq::<(Range, Seq<char>)>::empty().push((d.range, d.message@)) =~= input_check(defined@, all[i as int]));
                }
                diagnostics.push(d);
            },
        }
        proof {
            lemma_appended_trans(
                old(diagnostics)@,
                before,
                diagnostics@,
                inputs_check(defined@, all.take(i as int)),
                input_check(defined@, all[i as int]),
            );
        }
        i = i + 1;
    }
    assert(all.take(n as int) =~= all);
}

impl LSPHandlers {
    /// Checks each use of a component whose definition is indexed.
    fn check_components(&self, uses: &Vec<GitlabComponentElement>, diagnostics: &mut Vec<LSPDiagnostic>)
        requires
            self.wf(),
        ensures
            appended(old(diagnostics)@, final(diagnostics)@, components_check(self.component_entries(), uses@)),
    {
        proof {
            self.lemma_reveal();
        }
        let ghost all = uses@;
        let n = uses.len();
        let mut i: usize = 0;
        proof {
            assert(all.take(0) =~= Seq::<GitlabComponentElement>::empty());
            lemma_appended_none(diagnostics@);
        }
        while i < n
            invariant
                n == all.len(),
                all == uses@,
                self.wf(),
                self.components.wf(),
                self.component_entries() == self.components@,
                i <= n,
                appended(old(diagnostics)@, diagnostics@, components_check(self.component_entries(), all.take(i as int))),
            decreases n - i,
        {
            assert(all.take(i + 1).drop_last() =~= all.take(i as int));
            let u = &uses[i];
            let ghost before = diagnostics@;
            match self.components.get(u.key.as_str()) {
                Some(defined) => {
                    check_inputs(&defined.inputs, &u.inputs, diagnostics);
                },
                None => {
                    proof {
                        lemma_appended_none(before);
                    }
                },
            }
            proof {
                lemma_appended_trans(
                    old(diagnostics)@,
                    before,
                    diagnostics@,
                    components_check(self.component_entries(), all.take(i as int)),
                    match lookup(self.component_entries(), all[i as int].key@) {
                        Some(c) => inputs_check(c.inputs@, all[i as int].inputs@),
                        None => Seq::empty(),
                    },
                );
            }
            i = i + 1;
        }
        assert(all.take(n as int) =~= all);
    }

    /// The diagnostics of document `document_uri`, given what a parse of its
    /// text found: the `extends` that name templates defined nowhere, the
    /// stages used that are not defined, the jobs needed that are defined
    /// nowhere, then the problems with the inputs given to components.
    /// Nothing when the document is not among the documents.
    pub fn generate_diagnostics(
        &self,
        document_uri: &str,
        extends: &Vec<GitlabElement>,
        stages: &Vec<GitlabElement>,
        needs: &Vec<GitlabElement>,
        components: &Vec<GitlabComponentElement>,
    ) -> (r: Option<Vec<LSPDiagnostic>>)
        requires
            self.wf(),
        ensures
            lookup(self.documents(), document_uri@) is None ==> r is None,
            lookup(self.documents(), document_uri@) is Some ==> (r matches Some(d) && diagnostics_are(
                d@,
                rule_diagnostics(document_uri@, self.node_sets(), extends@) + stage_diagnostics(
                    self.stage_entries(),
                    stages@,
                ) + job_diagnostics(self.node_sets(), needs@) + components_check(
                    self.component_entries(),
                    components@,
                ),
            )),
    {
        if self.document(document_uri).is_none() {
            return None;
        }
        let mut diagnostics: Vec<LSPDiagnostic> = Vec::new();
        let ghost d0 = diagnostics@;
        self.check_extends(document_uri, extends, &mut diagnostics);
        let ghost d1 = diagnostics@;
        self.check_stages(stages, &mut diagnostics);
        let ghost d2 = diagnostics@;
        proof {
            lemma_appended_trans(d0, d1, d2, rule_diagnostics(document_uri@, self.node_sets(), extends@), stage_diagnostics(self.stage_entries(), stages@));
        }
        self.check_needs(needs, &mut diagnostics);
        let ghost d3 = diagnostics@;
        proof {
            lemma_appended_trans(
                d0,
                d2,
                d3,
                rule_diagnostics(document_uri@, self.node_sets(), extends@) + stage_diagnostics(self.stage_entries(), stages@),
                job_diagnostics(self.node_sets(), needs@),
            );
        }
        self.check_components(components, &mut diagnostics);
        proof {
            lemma_appended_trans(
                d0,
                d3,
                diagnostics@,
                rule_diagnostics(document_uri@, self.node_sets(), extends@) + stage_diagnostics(self.stage_entries(), stages@)
                    + job_diagnostics(self.node_sets(), needs@),
                components_check(self.component_entries(), components@),
            );
            assert(diagnostics@.subrange(0, diagnostics@.len() as int) =~= diagnostics@);
        }
        Some(diagnostics)
    }
}

} // verus!
