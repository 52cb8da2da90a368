//! The values that the language server passes around: positions, ranges,
//! locations, elements found in documents, components and their inputs, what
//! a parse of a document yields, and what the cursor stands on.

use vstd::prelude::*;

verus! {

/// A position in a document: zero-based line and character.
#[derive(Clone, Copy, Debug, PartialEq, Eq, Structural)]
pub struct LSPPosition {
    pub line: u32,
    pub character: u32,
}

/// A range in a document, from `start` to `end`.
#[derive(Clone, Copy, Debug, PartialEq, Eq, Structural)]
pub struct Range {
    pub start: LSPPosition,
    pub end: LSPPosition,
}

/// The range that starts and ends at line 0, character 0.
pub open spec fn zero_range() -> Range {
    Range {
        start: LSPPosition { line: 0, character: 0 },
        end: LSPPosition { line: 0, character: 0 },
    }
}

impl Range {
    /// The range at the very beginning of a document.
    pub fn zero() -> (r: Range)
        ensures
            r == zero_range(),
    {
        Range {
            start: LSPPosition { line: 0, character: 0 },
            end: LSPPosition { line: 0, character: 0 },
        }
    }
}

/// A range in the document with the given URI.
#[derive(Clone, Debug)]
pub struct LSPLocation {
    pub uri: String,
    pub range: Range,
}

/// An element found in a document: a key, its text if any, the document it
/// stands in and where.
#[derive(Clone, Debug)]
pub struct GitlabElement {
    pub key: String,
    pub content: Option<String>,
    pub uri: String,
    pub range: Range,
}

/// A completion offered to the editor.
#[derive(Clone, Debug)]
pub struct LSPCompletion {
    pub label: String,
    pub details: Option<String>,
    pub location: LSPLocation,
}

/// A problem reported on a range of a document.
#[derive(Clone, Debug)]
pub struct LSPDiagnostic {
    pub range: Range,
    pub message: String,
}

/// A file that a parse brought in, with its text.
#[derive(Clone, Debug)]
pub struct GitlabFile {
    pub path: String,
    pub content: String,
}

/// Whether the cursor stands on the value of a component input.
#[derive(Clone, Copy, Debug, PartialEq, Eq, Structural)]
pub struct ComponentInputValue {
    pub hovered: bool,
}

/// An input of a component: its key, the values it allows (if it restricts
/// them), the text shown beside it as a completion, and whether the cursor
/// stands on its key or on its value.
#[derive(Clone, Debug)]
pub struct ComponentInput {
    pub key: String,
    pub options: Option<Vec<String>>,
    pub details: String,
    pub hovered: bool,
    pub value_plain: ComponentInputValue,
}

/// A CI/CD component: where it is published, where its definition is cached,
/// and its inputs.
#[derive(Clone, Debug)]
pub struct Component {
    pub uri: String,
    pub local_path: String,
    pub inputs: Vec<ComponentInput>,
}

/// An input given to a component in a document, with its value if any.
#[derive(Clone, Debug)]
pub struct GitlabInputElement {
    pub key: String,
    pub range: Range,
    pub value_plain: Option<GitlabElement>,
}

/// A use of a component in a document: the component's URI and the inputs
/// given to it.
#[derive(Clone, Debug)]
pub struct GitlabComponentElement {
    pub key: String,
    pub inputs: Vec<GitlabInputElement>,
}

/// The path of a local, remote or plain include.
#[derive(Clone, Debug)]
pub struct IncludePath {
    pub path: String,
}

/// An include of a file from another project at a given ref.
#[derive(Clone, Debug)]
pub struct RemoteInclude {
    pub project: Option<String>,
    pub reference: Option<String>,
    pub file: Option<String>,
}

/// What an `include:` entry under the cursor names; exactly one part is
/// present for a well-formed entry.
#[derive(Clone, Debug)]
pub struct IncludeInformation {
    pub local: Option<IncludePath>,
    pub remote: Option<RemoteInclude>,
    pub remote_url: Option<IncludePath>,
    pub basic: Option<IncludePath>,
    pub component: Option<Component>,
}

/// A `needs:` entry naming a job.
#[derive(Clone, Debug)]
pub struct NeedsNode {
    pub name: String,
}

/// A `!reference` to a node.
#[derive(Clone, Debug)]
pub struct RuleReference {
    pub node: String,
}

/// What the cursor stands on.
#[derive(Clone, Debug)]
pub enum PositionType {
    Unknown,
    Extend,
    Stage,
    Variable,
    RootNode,
    Include(IncludeInformation),
    Needs(NeedsNode),
    RuleReference(RuleReference),
}

/// What a parse of a document found: the files it read, the root nodes, the
/// stages, the variables and the components.
#[derive(Clone, Debug)]
pub struct ParseResults {
    pub files: Vec<GitlabFile>,
    pub nodes: Vec<GitlabElement>,
    pub stages: Vec<GitlabElement>,
    pub variables: Vec<GitlabElement>,
    pub components: Vec<Component>,
}

/// The server's settings.
#[derive(Clone, Debug)]
pub struct LSPConfig {
    pub root_dir: String,
    pub cache_path: String,
    pub remote_urls: Vec<String>,
    pub package_map: Vec<(String, String)>,
}

/// The characters of an optional text.
pub open spec fn opt_chars(value: Option<String>) -> Option<Seq<char>> {
    match value {
        Some(v) => Some(v@),
        None => None,
    }
}

/// A copy of `s`.
pub fn copy_text(s: &String) -> (r: String)
    ensures
        r == *s,
{
    s.clone()
}

/// A copy of an optional text.
pub fn copy_opt_text(s: &Option<String>) -> (r: Option<String>)
    ensures
        r == *s,
{
    match s {
        Some(t) => Some(t.clone()),
        None => None,
    }
}

/// A copy of a location.
pub fn copy_location(l: &LSPLocation) -> (r: LSPLocation)
    ensures
        r == *l,
{
    LSPLocation { uri: l.uri.clone(), range: l.range }
}

/// A copy of an element.
pub fn copy_element(e: &GitlabElement) -> (r: GitlabElement)
    ensures
        r == *e,
{
    GitlabElement {
        key: e.key.clone(),
        content: copy_opt_text(&e.content),
        uri: e.uri.clone(),
        range: e.range,
    }
}

} // verus!
