use gitlab_ci_ls::treesitter_queries::TreesitterQueries;

#[test]
fn extends_query_without_name() {
    let expected = r##"
        (
            block_mapping_pair
            key: (flow_node) @key
            value: [
                (flow_node(plain_scalar(string_scalar))) @value
                (block_node(block_sequence(block_sequence_item(flow_node(plain_scalar(string_scalar) @value)))))
            ]
            (#eq? @key "extends")
            
        )
        "##;
    assert_eq!(TreesitterQueries::get_all_extends(None), expected);
}

#[test]
fn extends_query_with_name() {
    let expected = r##"
        (
            block_mapping_pair
            key: (flow_node) @key
            value: [
                (flow_node(plain_scalar(string_scalar))) @value
                (block_node(block_sequence(block_sequence_item(flow_node(plain_scalar(string_scalar) @value)))))
            ]
            (#eq? @key "extends")
            (#eq? @value ".base")
        )
        "##;
    assert_eq!(TreesitterQueries::get_all_extends(Some(".base")), expected);
}

#[test]
fn root_node_query() {
    let expected = r##"
        (
            stream(
                document(
                    block_node(
                        block_mapping(
                            block_mapping_pair
                                key: (flow_node(plain_scalar(string_scalar)@key))
                        )@value
                    )
                )
            )
            (#eq? @key "build-job")
        )
        "##;
    assert_eq!(TreesitterQueries::get_root_node("build-job"), expected);
}

#[test]
fn all_root_nodes_query() {
    let expected = r##"
        (
            stream(
                document(
                block_node(
                    block_mapping(
                    block_mapping_pair
                        key: (flow_node(plain_scalar(string_scalar)@key))
                    )@value
                )
                )
            )
        )
        "##;
    assert_eq!(TreesitterQueries::get_all_root_nodes(), expected);
}

#[test]
fn root_variables_query() {
    let expected = r##"
        (
            stream(
                document(
                    block_node(
                        block_mapping(
                            block_mapping_pair
                                key: (flow_node(plain_scalar(string_scalar) @key))
                                value: (block_node(
                                    block_mapping(
                                        block_mapping_pair
                                            key: (flow_node(plain_scalar(string_scalar)@env_key))
                                    )
                                )
                            )
                        )
                    )
                )
            )
        (#eq? @key "variables")
        )
        "##;
    assert_eq!(TreesitterQueries::get_root_variables(), expected);
}

#[test]
fn stage_definitions_query() {
    let expected = r##"
        (
            block_mapping_pair
            key: (flow_node(plain_scalar(string_scalar) @key))
            value: (block_node(block_sequence(block_sequence_item(flow_node(plain_scalar(string_scalar) @value)))))

            (#eq? @key "stages")
        )
        "##;
    assert_eq!(TreesitterQueries::get_stage_definitions(), expected);
}

#[test]
fn all_stages_query() {
    let expected = r##"
        (
            block_mapping_pair
                key: (
                    flow_node(
                        plain_scalar(string_scalar) @key
                    )
                )
                value: (
                    flow_node(
                        plain_scalar(string_scalar) @value
                    )
                )
            (#eq? @key "stage")
        )
        "##;
    assert_eq!(TreesitterQueries::get_all_stages(), expected);
}

#[test]
fn position_type_query() {
    let expected = r##"
            
            (
                block_mapping_pair
                key: (flow_node) @keyextends
                value: [
                    (flow_node(plain_scalar(string_scalar))) @extends
                    (block_node(block_sequence(block_sequence_item) @extends))
                ]
                (#eq? @keyextends "extends")
            )
        
            
            (
                block_mapping_pair
                    key: (
                        flow_node(
                            plain_scalar(string_scalar) @keystage
                        )
                    )
                    value: (
                        flow_node(
                            plain_scalar(string_scalar) @stage
                        )
                    )
                (#eq? @keystage "stage")
            )
        
            
            (
                block_mapping_pair
                key: (
                    flow_node(
                        plain_scalar(string_scalar)  @keyvariable
                    )
                )
                value:
                (
                    block_node(
                        block_mapping(block_mapping_pair
                            value:
                                [
                                    (flow_node(flow_sequence(flow_node) ))
                                    (flow_node)
                                ] @variable
                        )
                    )
                )
                (#eq? @keyvariable "image")
            )
            (
                block_mapping_pair
                key: (
                    flow_node(
                        plain_scalar(string_scalar)  @keyvariable
                    )
                )
                value:
                (
                    block_node(
                        block_mapping(block_mapping_pair
                            value:
                                [
                                    (flow_node(flow_sequence(flow_node) ))
                                    (flow_node)
                                ] @variable
                        )
                    )
                )
                (#eq? @keyvariable "variables")
            )
            (
                block_mapping_pair
                key: (
                    flow_node(
                        plain_scalar(string_scalar)  @keyvariable
                    )
                )
                value:
                (
                    block_node(
                        block_sequence(block_sequence_item) @variable
                    )
                )
                (#eq? @keyvariable "before_script")
            )
            (
                block_mapping_pair
                key: (
                    flow_node(
                        plain_scalar(string_scalar)  @keyvariable
                    )
                )
                value:
                (
                    block_node(
                        block_sequence(block_sequence_item) @variable
                    )
                )
                (#eq? @keyvariable "script")
            )
            (
                block_mapping_pair
                key: (
                    flow_node(
                        plain_scalar(string_scalar)  @keyvariable
                    )
                )
                value:
                (
                    block_node(
                        block_sequence(block_sequence_item) @variable
                    )
                )
                (#eq? @keyvariable "after_script")
            )
            (
                block_mapping_pair
                key: (
                    flow_node(
                        plain_scalar(string_scalar)  @keyvariable
                    )
                )
                value:
                (
                    block_node(
                        block_sequence(
                            block_sequence_item(
                                block_node(
                                    block_mapping(
                                        block_mapping_pair
                                            key: (flow_node(plain_scalar))
                                            value: (flow_node)@variable
                                    )
                                )
                            )
                        )
                    )
                )
                (#eq? @keyvariable "rules")
            )
            (
                block_mapping_pair
                key: (
                    flow_node(
                        plain_scalar(string_scalar)  @keyvariable
                    )
                )
                value:
                (
                    block_node(
                        block_mapping(block_mapping_pair
                            value:
                            (block_node(block_sequence)@variable)
                        )
                    )
                )
                (#eq? @keyvariable "parallel")
            )
        
            
            (
                stream(
                    document(
                        block_node(
                            block_mapping(
                                block_mapping_pair
                                    key: (flow_node(plain_scalar(string_scalar)@rootnode))
                            )
                        )
                    )
                )
            )
        
            
            (
                stream(
                    document(
                        block_node(
                            block_mapping(
                                block_mapping_pair
                                    key: (flow_node(plain_scalar(string_scalar)@local_include_key))
                                    value: (
                                        block_node(
                                            block_sequence(
                                                block_sequence_item(
                                                    block_node(
                                                        block_mapping(
                                                            block_mapping_pair
                                                                key: (flow_node(plain_scalar(string_scalar)@local_key))
                                                                value: (flow_node)@local_value
                                                        )
                                                    )
                                                )
                                            )
                                        )
                                    )
                                )
                            )
                        )
                    )
                (#eq? @local_include_key "include")
                (#eq? @local_key "local")
            )
        
            
            (
                stream(
                    document(
                        block_node(
                            block_mapping(
                                block_mapping_pair
                                    key: (flow_node(plain_scalar(string_scalar)@remote_include_key))
                                    value: (
                                        block_node(
                                            block_sequence(
                                                block_sequence_item(
                                                    block_node
                                                    [
                                                        (
                                                            block_mapping(
                                                                block_mapping_pair
                                                                    key: (flow_node(plain_scalar(string_scalar)@project_key))
                                                                    value: (flow_node(plain_scalar)@project_value)
                                                            )
                                                        )
                                                        (
                                                            block_mapping(
                                                                block_mapping_pair
                                                                    key: (flow_node(plain_scalar(string_scalar)@ref_key))
                                                                    value: (flow_node(plain_scalar)@ref_value)
                                                            )
                                                        )
                                                        (
                                                            block_mapping(
                                                            block_mapping_pair
                                                                key: (flow_node(plain_scalar(string_scalar)@file_key))
                                                                value: (block_node(block_sequence(block_sequence_item(flow_node)@file_value)))
                                                            )
                                                        )
                                                    ]
                                                )
                                            )@item
                                        )
                                    )
                                )
                            )
                        )
                    )
                (#eq? @remote_include_key "include")
                (#eq? @ref_key "ref")
                (#eq? @project_key "project")
                (#eq? @file_key "file")
            )
        
            
            (
                block_mapping_pair
                    key: (flow_node)@needs_key
                    value: (
                    block_node(
                        block_sequence(
                        block_sequence_item(
                            block_node(
                            block_mapping(
                                block_mapping_pair
                                key: (flow_node)@needs_job_key
                                value: (flow_node)@needs_job_value
                            )
                            )
                        )
                        )
                    )
                )
                (#eq? @needs_key "needs")
                (#eq? @needs_job_key "job")
            )
        
            
            (
                stream(
                    document(
                        block_node(
                            block_mapping(
                                block_mapping_pair
                                    key: (flow_node(plain_scalar(string_scalar)@remote_url_include_key))
                                    value: (
                                        block_node(
                                            block_sequence(
                                                block_sequence_item(
                                                    block_node(
                                                        block_mapping(
                                                            block_mapping_pair
                                                                key: (flow_node(plain_scalar(string_scalar)@remote_url_key))
                                                                value: (flow_node)@remote_url_value
                                                        )
                                                    )
                                                )
                                            )
                                        )
                                    )
                                )
                            )
                        )
                    )
                (#eq? @remote_url_include_key "include")
                (#eq? @remote_url_key "remote")
            )
        
        "##;
    assert_eq!(TreesitterQueries::get_position_type(), expected);
}

#[test]
fn job_needs_query_without_name() {
    let expected = r##"
            (
                block_mapping_pair
                    key: (flow_node)@needs_key
                    value: (
                    block_node(
                        block_sequence(
                        block_sequence_item(
                            block_node(
                            block_mapping(
                                block_mapping_pair
                                key: (flow_node)@needs_job_key
                                value: (flow_node)@needs_job_value
                            )
                            )
                        )
                        )
                    )
                )
                (#eq? @needs_key "needs")
                (#eq? @needs_job_key "job")
                
            )
        "##;
    assert_eq!(TreesitterQueries::get_all_job_needs(None), expected);
}

#[test]
fn job_needs_query_with_name() {
    let expected = r##"
            (
                block_mapping_pair
                    key: (flow_node)@needs_key
                    value: (
                    block_node(
                        block_sequence(
                        block_sequence_item(
                            block_node(
                            block_mapping(
                                block_mapping_pair
                                key: (flow_node)@needs_job_key
                                value: (flow_node)@needs_job_value
                            )
                            )
                        )
                        )
                    )
                )
                (#eq? @needs_key "needs")
                (#eq? @needs_job_key "job")
                (#eq? @needs_job_value "deploy")
            )
        "##;
    assert_eq!(TreesitterQueries::get_all_job_needs(Some("deploy")), expected);
}

#[test]
fn root_node_at_position_query() {
    let expected = r##"
        (
            stream(
                document(
                    block_node(
                        block_mapping(
                            block_mapping_pair
                                key: (flow_node(plain_scalar(string_scalar)@key))
                        )@full
                    )
                )
            )
        )
        "##;
    assert_eq!(TreesitterQueries::get_root_node_at_position(), expected);
}

#[test]
fn job_variable_definition_query() {
    let expected = r##"
        (
            stream(
                document(
                    block_node(
                        block_mapping(
                            block_mapping_pair
                                key: (flow_node(plain_scalar(string_scalar)@key))
                                value: (
                                    block_node(
                                        block_mapping(
                                            block_mapping_pair
                                                key: (flow_node(plain_scalar(string_scalar)@property_key))
                                                value: (
                                                    block_node(
                                                        block_mapping(
                                                            block_mapping_pair
                                                            key: (flow_node(plain_scalar(string_scalar)@variable_key))
                                                        )
                                                    )
                                                )
                                            (#eq? @property_key "variables")
                                        )
                                    )
                                )
                            )
                        )
                    )
                )
            (#eq? @key "test")
            (#eq? @variable_key "RUST_LOG")
        )
        "##;
    assert_eq!(TreesitterQueries::get_job_variable_definition("test", "RUST_LOG"), expected);
}

fn strip_space(s: &str) -> String {
    s.chars().filter(|c| !c.is_whitespace()).collect()
}

#[test]
fn query_shapes_hold_on_examples() {
    let root = TreesitterQueries::get_root_node("build");
    assert_eq!(root.matches("#eq?").count(), 1);
    assert!(root.contains("(#eq? @key \"build\")"));
    assert!(root.contains("stream(") && root.contains("string_scalar)@key") && root.contains(")@value"));

    let extends = TreesitterQueries::get_all_extends(None);
    let named = TreesitterQueries::get_all_extends(Some("a\"b"));
    let cut = extends.rfind(')').unwrap();
    assert!(extends[..cut].trim_end().ends_with("(#eq? @key \"extends\")"));
    assert_eq!(named, format!("{}(#eq? @value \"a\"b\"){}", &extends[..cut - 9], &extends[cut - 9..]));

    let needs = TreesitterQueries::get_all_job_needs(None);
    assert_eq!(needs.matches("#eq?").count(), 2);
    assert!(needs.contains("(#eq? @needs_key \"needs\")"));
    let named_needs = TreesitterQueries::get_all_job_needs(Some("lint"));
    assert!(named_needs.contains("(#eq? @needs_job_key \"job\")\n                (#eq? @needs_job_value \"lint\")"));

    let at = strip_space(&TreesitterQueries::get_root_node_at_position());
    let all = strip_space(&TreesitterQueries::get_all_root_nodes());
    assert_eq!(at, all.replace("@value", "@full"));
    assert_eq!(all.matches("@value").count(), 1);

    let var = TreesitterQueries::get_job_variable_definition("build", "CI");
    assert_eq!(var.matches("#eq?").count(), 3);
    assert!(var.contains("(#eq? @key \"build\")\n            (#eq? @variable_key \"CI\")"));
    assert!(var.contains("(#eq? @property_key \"variables\")"));
}
