use gitlab_ci_ls::completion::{CompletionAnswer, CursorWords};
use gitlab_ci_ls::diagnostics::generate_component_diagnostics_from_spec;
use gitlab_ci_ls::handlers::LSPHandlers;
use gitlab_ci_ls::types::{
    Component, ComponentInput, ComponentInputValue, GitlabComponentElement, GitlabElement,
    GitlabFile, GitlabInputElement, IncludeInformation, LSPConfig, LSPPosition, NeedsNode,
    ParseResults, PositionType, Range, RuleReference,
};

fn cfg() -> LSPConfig {
    LSPConfig {
        root_dir: "/work".to_string(),
        cache_path: "/cache/".to_string(),
        remote_urls: vec![],
        package_map: vec![],
    }
}

fn range(line: u32, start: u32, end: u32) -> Range {
    Range { start: LSPPosition { line, character: start }, end: LSPPosition { line, character: end } }
}

fn element(key: &str, content: Option<&str>, uri: &str, r: Range) -> GitlabElement {
    GitlabElement {
        key: key.to_string(),
        content: content.map(|c| c.to_string()),
        uri: uri.to_string(),
        range: r,
    }
}

fn input(key: &str, options: Option<Vec<&str>>, hovered: bool, value_hovered: bool) -> ComponentInput {
    ComponentInput {
        key: key.to_string(),
        options: options.map(|o| o.iter().map(|s| s.to_string()).collect()),
        details: format!("about {key}"),
        hovered,
        value_plain: ComponentInputValue { hovered: value_hovered },
    }
}

const DOC: &str = "file:///work/.gitlab-ci.yml";

fn server() -> LSPHandlers {
    let mut h = LSPHandlers::new(cfg());
    h.index_parse_results(ParseResults {
        files: vec![GitlabFile { path: DOC.to_string(), content: "x".to_string() }],
        nodes: vec![
            element(".base", Some("image: rust"), DOC, range(0, 0, 5)),
            element(".lint", Some("script: lint"), DOC, range(2, 0, 5)),
            element("build", Some("script: make"), "file:///work/ci.yml", range(0, 0, 5)),
        ],
        stages: vec![
            element("build", None, DOC, range(1, 4, 9)),
            element("test", None, DOC, range(2, 4, 8)),
        ],
        variables: vec![
            element("RUST_LOG", None, DOC, range(5, 2, 10)),
            element("CARGO_HOME", None, DOC, range(6, 2, 12)),
        ],
        components: vec![Component {
            uri: "gitlab.com/org/comp@1".to_string(),
            local_path: "/cache/comp.yml".to_string(),
            inputs: vec![
                input("stage", None, false, false),
                input("size", Some(vec!["small", "large"]), false, false),
                input("secret", None, false, false),
            ],
        }],
    });
    h
}

fn pos(line: u32, character: u32) -> LSPPosition {
    LSPPosition { line, character }
}

#[test]
fn stage_completions_contain_word() {
    let h = server();
    let r = h.on_completion_stages("es", "", pos(3, 12)).unwrap();
    assert_eq!(r.len(), 1);
    assert_eq!(r[0].label, "test");
    assert_eq!(r[0].details, None);
    assert_eq!(r[0].location.uri, "");
    assert_eq!(r[0].location.range, range(3, 10, 12));
    let all = h.on_completion_stages("", "ld", pos(3, 12)).unwrap();
    assert_eq!(all.iter().map(|c| c.label.as_str()).collect::<Vec<_>>(), vec!["build", "test"]);
    assert_eq!(all[0].location.range, range(3, 12, 14));
}

#[test]
fn variable_completions_by_prefix() {
    let h = server();
    let r = h.on_completion_variables("CA", "", pos(1, 5)).unwrap();
    assert_eq!(r.len(), 1);
    assert_eq!(r[0].label, "CARGO_HOME");
    assert!(h.on_completion_variables("HOME", "", pos(1, 5)).unwrap().is_empty());
}

#[test]
fn extends_completions_offer_templates() {
    let h = server();
    let r = h.on_completion_extends("", "", pos(4, 11)).unwrap();
    assert_eq!(r.iter().map(|c| c.label.as_str()).collect::<Vec<_>>(), vec![".base", ".lint"]);
    assert_eq!(r[0].details.as_deref(), Some("```yaml\r\nimage: rust\r\n```"));
    // the start saturates at the line's beginning
    let s = h.on_completion_extends(".li", "", pos(4, 1)).unwrap();
    assert_eq!(s.len(), 1);
    assert_eq!(s[0].location.range, range(4, 0, 1));
}

#[test]
fn completion_range_that_cannot_be_computed() {
    let h = server();
    // a matching stage, but the word before the cursor is longer than the
    // cursor's column: no answer
    assert!(h.on_completion_stages("es", "", pos(3, 1)).is_none());
    // nothing matches: an empty answer
    assert_eq!(h.on_completion_stages("zz", "", pos(3, 1)).map(|r| r.len()), Some(0));
    // the end would pass u32::MAX
    assert!(h.on_completion_variables("CA", "xy", pos(1, u32::MAX - 1)).is_none());
    // the start saturates for templates, so the range is computable
    assert_eq!(h.on_completion_extends(".li", "", pos(4, 0)).map(|r| r.len()), Some(1));
    assert!(h.on_completion_needs("bu", "", pos(7, 1)).is_none());
    assert!(h.on_completion_rule_reference("l", "", pos(7, 0)).is_none());
}

#[test]
fn needs_and_reference_completions() {
    let h = server();
    let needs = h.on_completion_needs("bu", "", pos(7, 10)).unwrap();
    assert_eq!(needs.iter().map(|c| c.label.as_str()).collect::<Vec<_>>(), vec!["build"]);
    let refs = h.on_completion_rule_reference("l", "", pos(7, 10)).unwrap();
    assert_eq!(refs.iter().map(|c| c.label.as_str()).collect::<Vec<_>>(), vec![".lint", "build"]);
}

#[test]
fn component_input_key_completions() {
    let h = server();
    let used = Component {
        uri: "gitlab.com/org/comp@1".to_string(),
        local_path: String::new(),
        inputs: vec![input("stage", None, true, false)],
    };
    let r = h.on_completion_component(&used, "s", ":", "", "", pos(3, 5)).unwrap();
    assert_eq!(r.iter().map(|c| c.label.as_str()).collect::<Vec<_>>(), vec!["size", "secret"]);
    assert_eq!(r[0].details.as_deref(), Some("about size"));
    assert_eq!(r[0].location.range, range(3, 4, 6));
}

#[test]
fn component_value_completions() {
    let h = server();
    let used = Component {
        uri: "gitlab.com/org/comp@1".to_string(),
        local_path: String::new(),
        inputs: vec![input("size", None, false, true)],
    };
    let r = h.on_completion_component(&used, "", "", "sm", "", pos(3, 12)).unwrap();
    assert_eq!(r.iter().map(|c| c.label.as_str()).collect::<Vec<_>>(), vec!["small"]);
    let unknown = Component {
        uri: "gitlab.com/org/other@1".to_string(),
        local_path: String::new(),
        inputs: vec![input("size", None, false, true)],
    };
    assert!(h.on_completion_component(&unknown, "", "", "sm", "", pos(3, 12)).unwrap().is_empty());
}

#[test]
fn diagnostics_report_undefined_names() {
    let h = server();
    let extends = vec![
        element(".base", None, DOC, range(1, 11, 16)),
        element(".missing", None, DOC, range(2, 11, 19)),
        element(".missing", None, "file:///work/other.yml", range(2, 11, 19)),
    ];
    let stages = vec![element("build", None, DOC, range(3, 9, 14)), element("deploy", None, DOC, range(4, 9, 15))];
    let needs = vec![element("build", None, DOC, range(5, 8, 13)), element("lint", None, DOC, range(6, 8, 12))];
    let d = h.generate_diagnostics(DOC, &extends, &stages, &needs, &vec![]).unwrap();
    let messages: Vec<&str> = d.iter().map(|x| x.message.as_str()).collect();
    assert_eq!(
        messages,
        vec!["Rule: .missing does not exist.", "Stage: deploy does not exist.", "Job: lint does not exist."]
    );
    assert_eq!(d[0].range, range(2, 11, 19));
    assert_eq!(d[1].range, range(4, 9, 15));
    assert_eq!(d[2].range, range(6, 8, 12));
}

#[test]
fn diagnostics_of_unknown_document_are_none() {
    let h = server();
    let extends = vec![element(".missing", None, "file:///work/unknown.yml", range(2, 11, 19))];
    assert!(h.generate_diagnostics("file:///work/unknown.yml", &extends, &vec![], &vec![], &vec![]).is_none());
    let empty = h.generate_diagnostics(DOC, &vec![], &vec![], &vec![], &vec![]);
    assert_eq!(empty.map(|d| d.len()), Some(0));
}

#[test]
fn diagnostics_check_component_inputs() {
    let h = server();
    let uses = vec![GitlabComponentElement {
        key: "gitlab.com/org/comp@1".to_string(),
        inputs: vec![
            GitlabInputElement { key: "stage".to_string(), range: range(2, 4, 9), value_plain: None },
            GitlabInputElement { key: "colour".to_string(), range: range(3, 4, 10), value_plain: None },
            GitlabInputElement {
                key: "size".to_string(),
                range: range(4, 4, 8),
                value_plain: Some(element("size", Some("huge"), DOC, range(4, 10, 14))),
            },
            GitlabInputElement { key: "size".to_string(), range: range(5, 4, 8), value_plain: None },
        ],
    }];
    let d = h.generate_diagnostics(DOC, &vec![], &vec![], &vec![], &uses).unwrap();
    let messages: Vec<&str> = d.iter().map(|x| x.message.as_str()).collect();
    assert_eq!(
        messages,
        vec![
            "Invalid input key. Key needs to be one of: 'stage, size, secret'.",
            "Invalid input value. Value needs to be one of: 'small, large'.",
            "No value. Value needs to be one of: 'small, large'.",
        ]
    );
    assert_eq!(d[0].range, range(3, 4, 10));
    assert_eq!(d[1].range, range(4, 10, 14));
    assert_eq!(d[2].range, range(5, 4, 8));
}

#[test]
fn component_check_allows_listed_value() {
    let i = GitlabInputElement {
        key: "size".to_string(),
        range: range(1, 0, 4),
        value_plain: Some(element("size", Some("small"), DOC, range(1, 6, 11))),
    };
    let spec = input("size", Some(vec!["small", "large"]), false, false);
    let mut d = vec![];
    generate_component_diagnostics_from_spec(&i, &spec, &mut d);
    assert!(d.is_empty());
    let unrestricted = input("size", None, false, false);
    let missing = GitlabInputElement { key: "size".to_string(), range: range(1, 0, 4), value_plain: None };
    generate_component_diagnostics_from_spec(&missing, &unrestricted, &mut d);
    assert!(d.is_empty());
}

fn words<'a>(before: &'a str, after: &'a str) -> CursorWords<'a> {
    CursorWords {
        before,
        after,
        variable_before: "CA",
        quoted_before: "li",
        quoted_after: "",
        value_before: "sm",
        key_after: "",
    }
}

fn labels(a: CompletionAnswer) -> Vec<String> {
    match a {
        CompletionAnswer::Completions(items) => items.into_iter().map(|c| c.label).collect(),
        CompletionAnswer::Unanswered => panic!("no answer"),
        CompletionAnswer::RangeOutsideU32 => panic!("range outside u32"),
    }
}

#[test]
fn completion_answers_by_position() {
    let h = server();
    let w = words("es", "");
    assert_eq!(labels(h.on_completion(PositionType::Stage, &w, pos(3, 12))), vec!["test"]);
    assert_eq!(labels(h.on_completion(PositionType::Variable, &w, pos(1, 5))), vec!["CARGO_HOME"]);
    assert_eq!(labels(h.on_completion(PositionType::Extend, &words(".", ""), pos(4, 11))), vec![".base", ".lint"]);
    let needs = PositionType::Needs(NeedsNode { name: String::new() });
    assert_eq!(labels(h.on_completion(needs, &words("bu", ""), pos(7, 10))), vec!["build"]);
    let reference = PositionType::RuleReference(RuleReference { node: String::new() });
    assert_eq!(labels(h.on_completion(reference, &w, pos(7, 10))), vec![".lint"]);
    let component = PositionType::Include(IncludeInformation {
        local: None,
        remote: None,
        remote_url: None,
        basic: None,
        component: Some(Component {
            uri: "gitlab.com/org/comp@1".to_string(),
            local_path: String::new(),
            inputs: vec![input("size", None, false, true)],
        }),
    });
    assert_eq!(labels(h.on_completion(component, &w, pos(3, 12))), vec!["small"]);
    assert!(matches!(h.on_completion(PositionType::RootNode, &w, pos(3, 12)), CompletionAnswer::Unanswered));
    assert!(matches!(h.on_completion(PositionType::Unknown, &w, pos(3, 12)), CompletionAnswer::Unanswered));
    assert!(matches!(h.on_completion(PositionType::Stage, &w, pos(3, 1)), CompletionAnswer::RangeOutsideU32));
}
