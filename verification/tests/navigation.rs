use gitlab_ci_ls::completion::{completion_kind, CompletionKind};
use gitlab_ci_ls::definition::{
    definition_search, element_locations, root_node_locations, strip_quotes, DefinitionSearch,
    IncludeDefinition,
};
use gitlab_ci_ls::handlers::LSPHandlers;
use gitlab_ci_ls::hover::{hover_content, hover_target};
use gitlab_ci_ls::keyed::KeyedList;
use gitlab_ci_ls::references::{collect_references, reference_search, ReferenceSearch};
use gitlab_ci_ls::types::{
    Component, GitlabElement, GitlabFile, IncludeInformation, IncludePath, LSPConfig, LSPPosition,
    NeedsNode, ParseResults, PositionType, Range, RemoteInclude, RuleReference,
};

fn cfg() -> LSPConfig {
    LSPConfig {
        root_dir: "/work".to_string(),
        cache_path: "/cache/".to_string(),
        remote_urls: vec![],
        package_map: vec![],
    }
}

fn zero() -> Range {
    Range { start: LSPPosition { line: 0, character: 0 }, end: LSPPosition { line: 0, character: 0 } }
}

fn store(paths: &[&str]) -> KeyedList<String> {
    let mut s = KeyedList::new();
    for p in paths {
        s.insert(p.to_string(), String::new());
    }
    s
}

fn server(paths: &[&str], components: Vec<Component>) -> LSPHandlers {
    let mut h = LSPHandlers::new(cfg());
    h.index_parse_results(ParseResults {
        files: paths.iter().map(|p| GitlabFile { path: p.to_string(), content: String::new() }).collect(),
        nodes: vec![],
        stages: vec![],
        variables: vec![],
        components,
    });
    h
}

fn blank_entry() -> IncludeInformation {
    IncludeInformation { local: None, remote: None, remote_url: None, basic: None, component: None }
}

#[test]
fn strip_quotes_removes_both_kinds() {
    assert_eq!(strip_quotes("\"a.yml\""), "a.yml");
    assert_eq!(strip_quotes("'a.yml'"), "a.yml");
    assert_eq!(strip_quotes("'\"a.yml\"'"), "\"a.yml\"");
    assert_eq!(strip_quotes("a.yml"), "a.yml");
}

#[test]
fn local_definition_by_suffix() {
    let s = store(&["file:///work/.gitlab-ci.yml", "file:///work/ci/build.yml"]);
    let loc = LSPHandlers::on_definition_local("./ci/build.yml", &s).unwrap();
    assert_eq!(loc.uri, "file:///work/ci/build.yml");
    assert_eq!(loc.range, zero());
    assert!(LSPHandlers::on_definition_local("ci/missing.yml", &s).is_none());
}

#[test]
fn remote_definition_by_hash() {
    let s = store(&["file:///cache/base_ab12.yaml", "file:///cache/base_cd34.yaml"]);
    assert_eq!(LSPHandlers::on_definition_remote("cd34", &s).unwrap().uri, "file:///cache/base_cd34.yaml");
    assert!(LSPHandlers::on_definition_remote("ef56", &s).is_none());
}

#[test]
fn include_local_quoted() {
    let h = server(&["file:///work/.gitlab-ci.yml", "file:///work/ci/build.yml"], vec![]);
    let mut info = blank_entry();
    info.local = Some(IncludePath { path: "\"/ci/build.yml\"".to_string() });
    match h.on_definition_include(info) {
        IncludeDefinition::Found(loc) => assert_eq!(loc.uri, "file:///work/ci/build.yml"),
        _ => panic!("expected a location"),
    }
}

#[test]
fn include_project_file() {
    let h = server(&["file:///cache/group/project/main/templates/a.yml"], vec![]);
    let mut info = blank_entry();
    info.remote = Some(RemoteInclude {
        project: Some("group/project".to_string()),
        reference: Some("main".to_string()),
        file: Some("'/templates/a.yml'".to_string()),
    });
    match h.on_definition_include(info) {
        IncludeDefinition::Found(loc) => {
            assert_eq!(loc.uri, "file:///cache/group/project/main/templates/a.yml")
        },
        _ => panic!("expected a location"),
    }
    let mut missing = blank_entry();
    missing.remote = Some(RemoteInclude {
        project: Some("group/project".to_string()),
        reference: None,
        file: Some("a.yml".to_string()),
    });
    assert!(matches!(h.on_definition_include(missing), IncludeDefinition::NotFound));
}

#[test]
fn include_component() {
    let c = Component {
        uri: "gitlab.com/org/comp@1".to_string(),
        local_path: "file:///cache/comp.yml".to_string(),
        inputs: vec![],
    };
    let h = server(&[], vec![c]);
    let mut info = blank_entry();
    info.component = Some(Component {
        uri: "'gitlab.com/org/comp@1'".to_string(),
        local_path: String::new(),
        inputs: vec![],
    });
    match h.on_definition_include(info) {
        IncludeDefinition::Found(loc) => assert_eq!(loc.uri, "file:///cache/comp.yml"),
        _ => panic!("expected a location"),
    }
}

#[test]
fn include_remote_url_and_plain() {
    let h = server(&["file:///work/ci/build.yml"], vec![]);
    let mut info = blank_entry();
    info.remote_url = Some(IncludePath { path: "\"https://example.com/a.yml\"".to_string() });
    match h.on_definition_include(info) {
        IncludeDefinition::RemoteUrl(u) => assert_eq!(u, "https://example.com/a.yml"),
        _ => panic!("expected a remote URL"),
    }
    // a plain include that parses as a URL is normalised by the URL parser
    let mut plain_url = blank_entry();
    plain_url.basic = Some(IncludePath { path: "HTTPS://Example.COM".to_string() });
    match h.on_definition_include(plain_url) {
        IncludeDefinition::RemoteUrl(u) => assert_eq!(u, "https://example.com/"),
        _ => panic!("expected a remote URL"),
    }
    // one that does not parse is looked up as a local file
    let mut plain_local = blank_entry();
    plain_local.basic = Some(IncludePath { path: "ci/build.yml".to_string() });
    match h.on_definition_include(plain_local) {
        IncludeDefinition::Found(loc) => assert_eq!(loc.uri, "file:///work/ci/build.yml"),
        _ => panic!("expected a location"),
    }
}

#[test]
fn include_with_two_parts_is_not_found() {
    let h = server(&["file:///work/ci/build.yml"], vec![]);
    let mut info = blank_entry();
    info.local = Some(IncludePath { path: "ci/build.yml".to_string() });
    info.basic = Some(IncludePath { path: "ci/build.yml".to_string() });
    assert!(matches!(h.on_definition_include(info), IncludeDefinition::NotFound));
}

fn hit(uri: &str, key: &str, line: u32) -> (String, GitlabElement) {
    (
        uri.to_string(),
        GitlabElement {
            key: key.to_string(),
            content: None,
            uri: uri.to_string(),
            range: Range {
                start: LSPPosition { line, character: 0 },
                end: LSPPosition { line, character: 5 },
            },
        },
    )
}

#[test]
fn root_node_locations_skip_own_line() {
    let hits = vec![hit(".gitlab-ci.yml", ".base", 3), hit("ci/other.yml", ".base", 7)];
    let locs = root_node_locations("file:///work/.gitlab-ci.yml", ".base:", &hits);
    assert_eq!(locs.len(), 1);
    assert_eq!(locs[0].uri, "ci/other.yml");
    assert_eq!(locs[0].range.start.line, 7);
    let all = root_node_locations("file:///work/.gitlab-ci.yml", "  extends: .base", &hits);
    assert_eq!(all.len(), 2);
    assert_eq!(element_locations(&hits).len(), 2);
}

#[test]
fn hover_content_is_yaml_block() {
    assert_eq!(hover_content("a: 1"), "```yaml\na: 1\n```");
}

#[test]
fn reference_searches() {
    match reference_search(&PositionType::RootNode, Some(".base:")) {
        Some(ReferenceSearch::Extends(n)) => assert_eq!(n, ".base"),
        _ => panic!("expected an extends search"),
    }
    match reference_search(&PositionType::RootNode, Some("build:")) {
        Some(ReferenceSearch::Needs(n)) => assert_eq!(n, "build"),
        _ => panic!("expected a needs search"),
    }
    match reference_search(&PositionType::Extend, Some(".base")) {
        Some(ReferenceSearch::Extends(n)) => assert_eq!(n, ".base"),
        _ => panic!("expected an extends search"),
    }
    assert!(reference_search(&PositionType::Extend, None).is_none());
    assert!(matches!(
        reference_search(&PositionType::Stage, None),
        Some(ReferenceSearch::Stages(None))
    ));
    assert!(matches!(reference_search(&PositionType::Variable, Some("x")), Some(ReferenceSearch::Nothing)));
}

#[test]
fn hover_targets_by_position() {
    assert_eq!(hover_target(PositionType::RootNode, ".base:").as_deref(), Some(".base"));
    assert_eq!(hover_target(PositionType::Extend, ".base").as_deref(), Some(".base"));
    let reference = PositionType::RuleReference(RuleReference { node: ".setup".to_string() });
    assert_eq!(hover_target(reference, "script").as_deref(), Some(".setup"));
    assert!(hover_target(PositionType::Stage, "build").is_none());
    assert!(hover_target(PositionType::Unknown, "build").is_none());
}

#[test]
fn definition_searches_by_position() {
    match definition_search(PositionType::RootNode, Some("build:"), None) {
        Some(DefinitionSearch::RootNodes(key)) => assert_eq!(key, "build"),
        _ => panic!("root nodes expected"),
    }
    assert!(definition_search(PositionType::Extend, None, Some("X")).is_none());
    let needs = PositionType::Needs(NeedsNode { name: "\"build\"".to_string() });
    match definition_search(needs, None, None) {
        Some(DefinitionSearch::Elements(key)) => assert_eq!(key, "build"),
        _ => panic!("elements expected"),
    }
    match definition_search(PositionType::Stage, Some("test"), None) {
        Some(DefinitionSearch::Stage(name)) => assert_eq!(name, "test"),
        _ => panic!("stage expected"),
    }
    match definition_search(PositionType::Variable, Some("word"), Some("CI_JOB")) {
        Some(DefinitionSearch::Variable(name)) => assert_eq!(name, "CI_JOB"),
        _ => panic!("variable expected"),
    }
    assert!(definition_search(PositionType::Variable, Some("word"), None).is_none());
    let reference = PositionType::RuleReference(RuleReference { node: ".setup".to_string() });
    match definition_search(reference, None, None) {
        Some(DefinitionSearch::Elements(key)) => assert_eq!(key, ".setup"),
        _ => panic!("elements expected"),
    }
    let mut info = blank_entry();
    info.local = Some(IncludePath { path: "ci.yml".to_string() });
    match definition_search(PositionType::Include(info), None, None) {
        Some(DefinitionSearch::Include(i)) => assert_eq!(i.local.unwrap().path, "ci.yml"),
        _ => panic!("include expected"),
    }
    assert!(definition_search(PositionType::Unknown, Some("x"), Some("y")).is_none());
}

#[test]
fn completion_kinds_by_position() {
    assert!(matches!(completion_kind(PositionType::Stage), Some(CompletionKind::Stages)));
    assert!(matches!(completion_kind(PositionType::Extend), Some(CompletionKind::Extends)));
    assert!(matches!(completion_kind(PositionType::Variable), Some(CompletionKind::Variables)));
    let needs = PositionType::Needs(NeedsNode { name: "build".to_string() });
    assert!(matches!(completion_kind(needs), Some(CompletionKind::Needs)));
    let reference = PositionType::RuleReference(RuleReference { node: String::new() });
    assert!(matches!(completion_kind(reference), Some(CompletionKind::RuleReference)));
    assert!(completion_kind(PositionType::RootNode).is_none());
    assert!(completion_kind(PositionType::Unknown).is_none());
    let mut component = blank_entry();
    component.component = Some(Component {
        uri: "gitlab.com/org/comp@1".to_string(),
        local_path: String::new(),
        inputs: vec![],
    });
    match completion_kind(PositionType::Include(component.clone())) {
        Some(CompletionKind::Component(c)) => assert_eq!(c.uri, "gitlab.com/org/comp@1"),
        _ => panic!("component expected"),
    }
    component.local = Some(IncludePath { path: "ci.yml".to_string() });
    assert!(completion_kind(PositionType::Include(component)).is_none());
}

#[test]
fn references_are_collected_document_by_document() {
    let a = hit("file:///a.yml", ".base", 1).1;
    let b = hit("file:///b.yml", ".base", 2).1;
    let c = hit("file:///b.yml", ".base", 7).1;
    let r = collect_references(vec![vec![a], vec![], vec![b, c]]);
    assert_eq!(r.iter().map(|e| (e.uri.as_str(), e.range.start.line)).collect::<Vec<_>>(), vec![
        ("file:///a.yml", 1),
        ("file:///b.yml", 2),
        ("file:///b.yml", 7),
    ]);
    assert!(collect_references(vec![]).is_empty());
}

#[test]
fn document_hits_pair_documents_with_what_was_found() {
    let h = server(&["file:///a.yml", "file:///b.yml", "file:///c.yml"], vec![]);
    let found = vec![Some(hit("x", "build", 1).1), None, Some(hit("y", "build", 4).1), Some(hit("z", "build", 9).1)];
    let hits = h.document_hits(found);
    assert_eq!(hits.iter().map(|(u, e)| (u.as_str(), e.range.start.line)).collect::<Vec<_>>(), vec![
        ("file:///a.yml", 1),
        ("file:///c.yml", 4),
    ]);
}

#[test]
fn variable_definitions_come_before_indexed_variables() {
    let mut h = LSPHandlers::new(cfg());
    h.index_parse_results(ParseResults {
        files: vec![],
        nodes: vec![],
        stages: vec![],
        variables: vec![hit("file:///ci.yml", "CI_JOB", 3).1, hit("file:///ci.yml", "OTHER", 4).1],
        components: vec![],
    });
    let found = vec![hit("file:///job.yml", "CI_JOB", 8).1];
    let r = h.variable_definition_locations(found, "CI");
    assert_eq!(r.iter().map(|l| (l.uri.as_str(), l.range.start.line)).collect::<Vec<_>>(), vec![
        ("file:///job.yml", 8),
        ("file:///ci.yml", 3),
    ]);
}
