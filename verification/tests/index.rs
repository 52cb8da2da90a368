use gitlab_ci_ls::keyed::KeyedList;
use gitlab_ci_ls::handlers::LSPHandlers;
use gitlab_ci_ls::types::{
    Component, ComponentInput, ComponentInputValue, GitlabElement, GitlabFile, LSPConfig,
    LSPPosition, ParseResults, Range,
};

fn cfg() -> LSPConfig {
    LSPConfig {
        root_dir: "/work".to_string(),
        cache_path: "/cache/".to_string(),
        remote_urls: vec![],
        package_map: vec![],
    }
}

fn range(line: u32, start: u32, end: u32) -> Range {
    Range {
        start: LSPPosition { line, character: start },
        end: LSPPosition { line, character: end },
    }
}

fn element(key: &str, content: Option<&str>, uri: &str) -> GitlabElement {
    GitlabElement {
        key: key.to_string(),
        content: content.map(|c| c.to_string()),
        uri: uri.to_string(),
        range: range(1, 0, 4),
    }
}

fn file(path: &str, content: &str) -> GitlabFile {
    GitlabFile { path: path.to_string(), content: content.to_string() }
}

fn component(uri: &str, path: &str, keys: &[&str]) -> Component {
    Component {
        uri: uri.to_string(),
        local_path: path.to_string(),
        inputs: keys
            .iter()
            .map(|k| ComponentInput {
                key: k.to_string(),
                options: None,
                details: String::new(),
                hovered: false,
                value_plain: ComponentInputValue { hovered: false },
            })
            .collect(),
    }
}

fn results() -> ParseResults {
    ParseResults {
        files: vec![
            file("file:///work/.gitlab-ci.yml", "stages:\n  - build\n"),
            file("file:///work/ci/jobs.yml", "build:\n  script: make\n"),
        ],
        nodes: vec![
            element(".base", Some("image: rust"), "file:///work/.gitlab-ci.yml"),
            element("build", None, "file:///work/ci/jobs.yml"),
        ],
        stages: vec![element("build", None, "file:///work/.gitlab-ci.yml")],
        variables: vec![element("RUST_LOG", None, "file:///work/.gitlab-ci.yml")],
        components: vec![component("gitlab.com/org/comp@1", "/cache/comp.yml", &["name"])],
    }
}

#[test]
fn new_server_is_empty() {
    let h = LSPHandlers::new(cfg());
    assert!(h.document("file:///work/.gitlab-ci.yml").is_none());
    assert!(h.hover_element(".base").is_none());
    assert!(h.stage_location("build").is_none());
}

#[test]
fn indexing_stores_files_nodes_and_stages() {
    let mut h = LSPHandlers::new(cfg());
    h.begin_indexing();
    h.index_parse_results(results());
    assert_eq!(
        h.document("file:///work/ci/jobs.yml").map(|s| s.as_str()),
        Some("build:\n  script: make\n")
    );
    let hovered = h.hover_element(".base").unwrap();
    assert_eq!(hovered.uri, "file:///work/.gitlab-ci.yml");
    assert_eq!(hovered.content.as_deref(), Some("image: rust"));
    // a node without text is indexed with empty text
    let build = h.hover_element("build").unwrap();
    assert_eq!(build.content.as_deref(), Some(""));
    let stage = h.stage_location("build").unwrap();
    assert_eq!(stage.uri, "file:///work/.gitlab-ci.yml");
    assert_eq!(stage.range, range(1, 0, 4));
}

#[test]
fn later_file_with_same_path_wins() {
    let mut h = LSPHandlers::new(cfg());
    let mut r = results();
    r.files.push(file("file:///work/ci/jobs.yml", "test:\n  script: true\n"));
    h.index_parse_results(r);
    assert_eq!(
        h.document("file:///work/ci/jobs.yml").map(|s| s.as_str()),
        Some("test:\n  script: true\n")
    );
    assert_eq!(h.store().len(), 2);
}

#[test]
fn open_stops_at_node_without_text() {
    let mut h = LSPHandlers::new(cfg());
    let r = results();
    // the second node has no text: the update stops there and no diagnostics follow
    assert!(!h.on_open(Some(r)));
    assert!(h.document("file:///work/.gitlab-ci.yml").is_some());
    assert!(h.hover_element(".base").is_some());
    assert!(h.hover_element("build").is_none());
    assert!(h.stage_location("build").is_none());
}

#[test]
fn open_with_complete_nodes_adds_stages() {
    let mut h = LSPHandlers::new(cfg());
    let mut r = results();
    r.nodes[1].content = Some("script: make".to_string());
    assert!(h.on_open(Some(r)));
    assert!(h.hover_element("build").is_some());
    assert!(h.stage_location("build").is_some());
    assert!(h.on_open(None));
}

#[test]
fn change_drops_the_document_nodes() {
    let mut h = LSPHandlers::new(cfg());
    h.index_parse_results(results());
    assert!(h.hover_element(".base").is_some());
    h.on_change("file:///work/.gitlab-ci.yml", None);
    assert!(h.hover_element(".base").is_none());
    assert!(h.hover_element("build").is_some());
}

#[test]
fn change_replaces_stages_when_some_are_found() {
    let mut h = LSPHandlers::new(cfg());
    h.index_parse_results(results());
    let r = ParseResults {
        files: vec![],
        nodes: vec![],
        stages: vec![element("deploy", None, "file:///work/.gitlab-ci.yml")],
        variables: vec![],
        components: vec![],
    };
    h.on_change("file:///work/.gitlab-ci.yml", Some(r));
    assert!(h.stage_location("build").is_none());
    assert!(h.stage_location("deploy").is_some());
    let empty = ParseResults {
        files: vec![],
        nodes: vec![],
        stages: vec![],
        variables: vec![],
        components: vec![],
    };
    h.on_change("file:///work/.gitlab-ci.yml", Some(empty));
    assert!(h.stage_location("deploy").is_some());
}

#[test]
fn variable_locations_by_prefix() {
    let mut h = LSPHandlers::new(cfg());
    let mut r = results();
    r.variables.push(element("RUST_BACKTRACE", None, "file:///work/ci/jobs.yml"));
    r.variables.push(element("CARGO_HOME", None, "file:///work/ci/jobs.yml"));
    h.index_parse_results(r);
    let found = h.variable_locations("RUST");
    let uris: Vec<&str> = found.iter().map(|l| l.uri.as_str()).collect();
    assert_eq!(uris, vec!["file:///work/.gitlab-ci.yml", "file:///work/ci/jobs.yml"]);
    assert!(h.variable_locations("NOPE").is_empty());
}

#[test]
fn keyed_list_read_gives_back_write() {
    let mut m: KeyedList<u32> = KeyedList::new();
    m.insert("a".to_string(), 1);
    m.insert("b".to_string(), 2);
    m.insert("a".to_string(), 3);
    assert_eq!(m.len(), 2);
    assert_eq!(m.get("a"), Some(&3));
    assert_eq!(m.get("b"), Some(&2));
    assert_eq!(m.get("c"), None);
    assert_eq!(m.key_at(0), "a");
    m.clear();
    assert_eq!(m.len(), 0);
}

#[test]
fn later_node_and_stage_with_same_key_win() {
    let mut h = LSPHandlers::new(cfg());
    let mut later_stage = element("build", None, "file:///work/ci/jobs.yml");
    later_stage.range = range(7, 2, 7);
    h.index_parse_results(ParseResults {
        files: vec![],
        nodes: vec![
            element(".base", Some("image: rust"), "file:///work/.gitlab-ci.yml"),
            element(".base", Some("image: alpine"), "file:///work/.gitlab-ci.yml"),
        ],
        stages: vec![element("build", None, "file:///work/.gitlab-ci.yml"), later_stage],
        variables: vec![],
        components: vec![],
    });
    let hovered = h.hover_element(".base").unwrap();
    assert_eq!(hovered.content.as_deref(), Some("image: alpine"));
    let stage = h.stage_location("build").unwrap();
    assert_eq!(stage.uri, "file:///work/ci/jobs.yml");
    assert_eq!(stage.range, range(7, 2, 7));
}
