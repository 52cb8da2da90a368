//! Tree-sitter query texts over the YAML grammar, used to find GitLab CI
//! elements (root nodes, `extends`, stages, variables, includes, `needs`).
//! Every builder returns exactly the template below with its arguments put in
//! place.

use vstd::prelude::*;

verus! {

/// Text of the `extends` query before the optional value filter.
pub const EXTENDS_QUERY_HEAD: &'static str = r#"
        (
            block_mapping_pair
            key: (flow_node) @key
            value: [
                (flow_node(plain_scalar(string_scalar))) @value
                (block_node(block_sequence(block_sequence_item(flow_node(plain_scalar(string_scalar) @value)))))
            ]
            (#eq? @key "extends")
            "#;

/// Text of the `extends` query after the optional value filter.
pub const EXTENDS_QUERY_TAIL: &'static str = r#"
        )
        "#;

/// Text of the root node query before the node key.
pub const ROOT_NODE_QUERY_HEAD: &'static str = r#"
        (
            stream(
                document(
                    block_node(
                        block_mapping(
                            block_mapping_pair
                                key: (flow_node(plain_scalar(string_scalar)@key))
                        )@value
                    )
                )
            )
            (#eq? @key ""#;

/// Text of the root node query after the node key.
pub const ROOT_NODE_QUERY_TAIL: &'static str = r#"")
        )
        "#;

/// Query that captures every root node.
pub const ALL_ROOT_NODES_QUERY: &'static str = r#"
        (
            stream(
                document(
                block_node(
                    block_mapping(
                    block_mapping_pair
                        key: (flow_node(plain_scalar(string_scalar)@key))
                    )@value
                )
                )
            )
        )
        "#;

/// Query that captures the keys of the root `variables` block.
pub const ROOT_VARIABLES_QUERY: &'static str = r#"
        (
            stream(
                document(
                    block_node(
                        block_mapping(
                            block_mapping_pair
                                key: (flow_node(plain_scalar(string_scalar) @key))
                                value: (block_node(
                                    block_mapping(
                                        block_mapping_pair
                                            key: (flow_node(plain_scalar(string_scalar)@env_key))
                                    )
                                )
                            )
                        )
                    )
                )
            )
        (#eq? @key "variables")
        )
        "#;

/// Query that captures the entries of the `stages` list.
pub const STAGE_DEFINITIONS_QUERY: &'static str = r#"
        (
            block_mapping_pair
            key: (flow_node(plain_scalar(string_scalar) @key))
            value: (block_node(block_sequence(block_sequence_item(flow_node(plain_scalar(string_scalar) @value)))))

            (#eq? @key "stages")
        )
        "#;

/// Query that captures every `stage:` value.
pub const ALL_STAGES_QUERY: &'static str = r#"
        (
            block_mapping_pair
                key: (
                    flow_node(
                        plain_scalar(string_scalar) @key
                    )
                )
                value: (
                    flow_node(
                        plain_scalar(string_scalar) @value
                    )
                )
            (#eq? @key "stage")
        )
        "#;

/// Part of the position query that searches extends.
pub const POSITION_SEARCH_EXTENDS: &'static str = r#"
            (
                block_mapping_pair
                key: (flow_node) @keyextends
                value: [
                    (flow_node(plain_scalar(string_scalar))) @extends
                    (block_node(block_sequence(block_sequence_item) @extends))
                ]
                (#eq? @keyextends "extends")
            )
        "#;

/// Part of the position query that searches stages.
pub const POSITION_SEARCH_STAGES: &'static str = r#"
            (
                block_mapping_pair
                    key: (
                        flow_node(
                            plain_scalar(string_scalar) @keystage
                        )
                    )
                    value: (
                        flow_node(
                            plain_scalar(string_scalar) @stage
                        )
                    )
                (#eq? @keystage "stage")
            )
        "#;

/// Part of the position query that searches variables.
pub const POSITION_SEARCH_VARIABLES: &'static str = r#"
            (
                block_mapping_pair
                key: (
                    flow_node(
                        plain_scalar(string_scalar)  @keyvariable
                    )
                )
                value:
                (
                    block_node(
                        block_mapping(block_mapping_pair
                            value:
                                [
                                    (flow_node(flow_sequence(flow_node) ))
                                    (flow_node)
                                ] @variable
                        )
                    )
                )
                (#eq? @keyvariable "image")
            )
            (
                block_mapping_pair
                key: (
                    flow_node(
                        plain_scalar(string_scalar)  @keyvariable
                    )
                )
                value:
                (
                    block_node(
                        block_mapping(block_mapping_pair
                            value:
                                [
                                    (flow_node(flow_sequence(flow_node) ))
                                    (flow_node)
                                ] @variable
                        )
                    )
                )
                (#eq? @keyvariable "variables")
            )
            (
                block_mapping_pair
                key: (
                    flow_node(
                        plain_scalar(string_scalar)  @keyvariable
                    )
                )
                value:
                (
                    block_node(
                        block_sequence(block_sequence_item) @variable
                    )
                )
                (#eq? @keyvariable "before_script")
            )
            (
                block_mapping_pair
                key: (
                    flow_node(
                        plain_scalar(string_scalar)  @keyvariable
                    )
                )
                value:
                (
                    block_node(
                        block_sequence(block_sequence_item) @variable
                    )
                )
                (#eq? @keyvariable "script")
            )
            (
                block_mapping_pair
                key: (
                    flow_node(
                        plain_scalar(string_scalar)  @keyvariable
                    )
                )
                value:
                (
                    block_node(
                        block_sequence(block_sequence_item) @variable
                    )
                )
                (#eq? @keyvariable "after_script")
            )
            (
                block_mapping_pair
                key: (
                    flow_node(
                        plain_scalar(string_scalar)  @keyvariable
                    )
                )
                value:
                (
                    block_node(
                        block_sequence(
                            block_sequence_item(
                                block_node(
                                    block_mapping(
                                        block_mapping_pair
                                            key: (flow_node(plain_scalar))
                                            value: (flow_node)@variable
                                    )
                                )
                            )
                        )
                    )
                )
                (#eq? @keyvariable "rules")
            )
            (
                block_mapping_pair
                key: (
                    flow_node(
                        plain_scalar(string_scalar)  @keyvariable
                    )
                )
                value:
                (
                    block_node(
                        block_mapping(block_mapping_pair
                            value:
                            (block_node(block_sequence)@variable)
                        )
                    )
                )
                (#eq? @keyvariable "parallel")
            )
        "#;

/// Part of the position query that searches root node.
pub const POSITION_SEARCH_ROOT_NODE: &'static str = r#"
            (
                stream(
                    document(
                        block_node(
                            block_mapping(
                                block_mapping_pair
                                    key: (flow_node(plain_scalar(string_scalar)@rootnode))
                            )
                        )
                    )
                )
            )
        "#;

/// Part of the position query that searches local include.
pub const POSITION_SEARCH_LOCAL_INCLUDE: &'static str = r#"
            (
                stream(
                    document(
                        block_node(
                            block_mapping(
                                block_mapping_pair
                                    key: (flow_node(plain_scalar(string_scalar)@local_include_key))
                                    value: (
                                        block_node(
                                            block_sequence(
                                                block_sequence_item(
                                                    block_node(
                                                        block_mapping(
                                                            block_mapping_pair
                                                                key: (flow_node(plain_scalar(string_scalar)@local_key))
                                                                value: (flow_node)@local_value
                                                        )
                                                    )
                                                )
                                            )
                                        )
                                    )
                                )
                            )
                        )
                    )
                (#eq? @local_include_key "include")
                (#eq? @local_key "local")
            )
        "#;

/// Part of the position query that searches project includes.
pub const POSITION_SEARCH_PROJECT_INCLUDES: &'static str = r#"
            (
                stream(
                    document(
                        block_node(
                            block_mapping(
                                block_mapping_pair
                                    key: (flow_node(plain_scalar(string_scalar)@remote_include_key))
                                    value: (
                                        block_node(
                                            block_sequence(
                                                block_sequence_item(
                                                    block_node
                                                    [
                                                        (
                                                            block_mapping(
                                                                block_mapping_pair
                                                                    key: (flow_node(plain_scalar(string_scalar)@project_key))
                                                                    value: (flow_node(plain_scalar)@project_value)
                                                            )
                                                        )
                                                        (
                                                            block_mapping(
                                                                block_mapping_pair
                                                                    key: (flow_node(plain_scalar(string_scalar)@ref_key))
                                                                    value: (flow_node(plain_scalar)@ref_value)
                                                            )
                                                        )
                                                        (
                                                            block_mapping(
                                                            block_mapping_pair
                                                                key: (flow_node(plain_scalar(string_scalar)@file_key))
                                                                value: (block_node(block_sequence(block_sequence_item(flow_node)@file_value)))
                                                            )
                                                        )
                                                    ]
                                                )
                                            )@item
                                        )
                                    )
                                )
                            )
                        )
                    )
                (#eq? @remote_include_key "include")
                (#eq? @ref_key "ref")
                (#eq? @project_key "project")
                (#eq? @file_key "file")
            )
        "#;

/// Part of the position query that searches job needs.
pub const POSITION_SEARCH_JOB_NEEDS: &'static str = r#"
            (
                block_mapping_pair
                    key: (flow_node)@needs_key
                    value: (
                    block_node(
                        block_sequence(
                        block_sequence_item(
                            block_node(
                            block_mapping(
                                block_mapping_pair
                                key: (flow_node)@needs_job_key
                                value: (flow_node)@needs_job_value
                            )
                            )
                        )
                        )
                    )
                )
                (#eq? @needs_key "needs")
                (#eq? @needs_job_key "job")
            )
        "#;

/// Part of the position query that searches remote urls.
pub const POSITION_SEARCH_REMOTE_URLS: &'static str = r#"
            (
                stream(
                    document(
                        block_node(
                            block_mapping(
                                block_mapping_pair
                                    key: (flow_node(plain_scalar(string_scalar)@remote_url_include_key))
                                    value: (
                                        block_node(
                                            block_sequence(
                                                block_sequence_item(
                                                    block_node(
                                                        block_mapping(
                                                            block_mapping_pair
                                                                key: (flow_node(plain_scalar(string_scalar)@remote_url_key))
                                                                value: (flow_node)@remote_url_value
                                                        )
                                                    )
                                                )
                                            )
                                        )
                                    )
                                )
                            )
                        )
                    )
                (#eq? @remote_url_include_key "include")
                (#eq? @remote_url_key "remote")
            )
        "#;

/// Text of the `needs` query before the optional job filter.
pub const JOB_NEEDS_QUERY_HEAD: &'static str = r#"
            (
                block_mapping_pair
                    key: (flow_node)@needs_key
                    value: (
                    block_node(
                        block_sequence(
                        block_sequence_item(
                            block_node(
                            block_mapping(
                                block_mapping_pair
                                key: (flow_node)@needs_job_key
                                value: (flow_node)@needs_job_value
                            )
                            )
                        )
                        )
                    )
                )
                (#eq? @needs_key "needs")
                (#eq? @needs_job_key "job")
                "#;

/// Text of the `needs` query after the optional job filter.
pub const JOB_NEEDS_QUERY_TAIL: &'static str = r#"
            )
        "#;

/// Query that captures each root node with its whole block.
pub const ROOT_NODE_AT_POSITION_QUERY: &'static str = r#"
        (
            stream(
                document(
                    block_node(
                        block_mapping(
                            block_mapping_pair
                                key: (flow_node(plain_scalar(string_scalar)@key))
                        )@full
                    )
                )
            )
        )
        "#;

/// Text of the job variable query before the job name.
pub const JOB_VARIABLE_QUERY_HEAD: &'static str = r#"
        (
            stream(
                document(
                    block_node(
                        block_mapping(
                            block_mapping_pair
                                key: (flow_node(plain_scalar(string_scalar)@key))
                                value: (
                                    block_node(
                                        block_mapping(
                                            block_mapping_pair
                                                key: (flow_node(plain_scalar(string_scalar)@property_key))
                                                value: (
                                                    block_node(
                                                        block_mapping(
                                                            block_mapping_pair
                                                            key: (flow_node(plain_scalar(string_scalar)@variable_key))
                                                        )
                                                    )
                                                )
                                            (#eq? @property_key "variables")
                                        )
                                    )
                                )
                            )
                        )
                    )
                )
            (#eq? @key ""#;

/// Text of the job variable query between the job name and the variable name.
pub const JOB_VARIABLE_QUERY_MIDDLE: &'static str = r#"")
            (#eq? @variable_key ""#;

/// Text of the job variable query after the variable name.
pub const JOB_VARIABLE_QUERY_TAIL: &'static str = r#"")
        )
        "#;

/// Opening of the value filter that narrows the `extends` query.
pub const VALUE_FILTER_HEAD: &'static str = "(#eq? @value \"";

/// Opening of the job filter that narrows the `needs` query.
pub const NEEDS_FILTER_HEAD: &'static str = "(#eq? @needs_job_value \"";

/// Closing of both filters.
pub const FILTER_TAIL: &'static str = "\")";

/// Line break and indentation between the parts of the position query.
pub const POSITION_SEPARATOR: &'static str = "\n            ";

/// Line break and indentation that end the position query.
pub const POSITION_END: &'static str = "\n        ";

/// The characters of an optional text.
pub open spec fn opt_text(value: Option<&str>) -> Option<Seq<char>> {
    match value {
        Some(v) => Some(v@),
        None => None,
    }
}

/// The filter `head` + `value` + `")`, or nothing when there is no value.
pub open spec fn optional_filter(head: Seq<char>, value: Option<Seq<char>>) -> Seq<char> {
    match value {
        Some(v) => head + v + FILTER_TAIL@,
        None => Seq::empty(),
    }
}

/// The `extends` query, narrowed to one value when a name is given.
pub open spec fn extends_query(extend_name: Option<Seq<char>>) -> Seq<char> {
    EXTENDS_QUERY_HEAD@ + optional_filter(VALUE_FILTER_HEAD@, extend_name) + EXTENDS_QUERY_TAIL@
}

/// The query for the root node whose key is `node_key`.
pub open spec fn root_node_query(node_key: Seq<char>) -> Seq<char> {
    ROOT_NODE_QUERY_HEAD@ + node_key + ROOT_NODE_QUERY_TAIL@
}

/// The query that classifies a cursor position: all eight searches, one per line.
pub open spec fn position_type_query() -> Seq<char> {
    POSITION_SEPARATOR@ + POSITION_SEARCH_EXTENDS@ + POSITION_SEPARATOR@ + POSITION_SEARCH_STAGES@
        + POSITION_SEPARATOR@ + POSITION_SEARCH_VARIABLES@ + POSITION_SEPARATOR@
        + POSITION_SEARCH_ROOT_NODE@ + POSITION_SEPARATOR@ + POSITION_SEARCH_LOCAL_INCLUDE@
        + POSITION_SEPARATOR@ + POSITION_SEARCH_PROJECT_INCLUDES@ + POSITION_SEPARATOR@
        + POSITION_SEARCH_JOB_NEEDS@ + POSITION_SEPARATOR@ + POSITION_SEARCH_REMOTE_URLS@
        + POSITION_END@
}

/// The `needs` query, narrowed to one job when a name is given.
pub open spec fn job_needs_query(needs_name: Option<Seq<char>>) -> Seq<char> {
    JOB_NEEDS_QUERY_HEAD@ + optional_filter(NEEDS_FILTER_HEAD@, needs_name) + JOB_NEEDS_QUERY_TAIL@
}

/// The query for variable `variable_name` in the `variables` block of job `job_name`.
pub open spec fn job_variable_query(job_name: Seq<char>, variable_name: Seq<char>) -> Seq<char> {
    JOB_VARIABLE_QUERY_HEAD@ + job_name + JOB_VARIABLE_QUERY_MIDDLE@ + variable_name
        + JOB_VARIABLE_QUERY_TAIL@
}

/// Appends the filter for `value` (if any) to `query`.
fn append_filter(query: &mut String, head: &str, value: Option<&str>)
    ensures
        final(query)@ == old(query)@ + optional_filter(head@, opt_text(value)),
{
    match value {
        Some(v) => {
            query.append(head);
            query.append(v);
            query.append(FILTER_TAIL);
        },
        None => {},
    }
}

/// Builders of the tree-sitter queries.
pub struct TreesitterQueries {}

impl TreesitterQueries {
    /// Query for `extends:` values, all of them or those equal to `extend_name`.
    pub fn get_all_extends(extend_name: Option<&str>) -> (query: String)
        ensures
            query@ == extends_query(opt_text(extend_name)),
    {
        let mut query = String::from_str(EXTENDS_QUERY_HEAD);
        append_filter(&mut query, VALUE_FILTER_HEAD, extend_name);
        query.append(EXTENDS_QUERY_TAIL);
        query
    }

    /// Query for the root node named `node_key`, capturing its whole block.
    pub fn get_root_node(node_key: &str) -> (query: String)
        ensures
            query@ == root_node_query(node_key@),
    {
        let mut query = String::from_str(ROOT_NODE_QUERY_HEAD);
        query.append(node_key);
        query.append(ROOT_NODE_QUERY_TAIL);
        query
    }

    /// Query for every root node.
    pub fn get_all_root_nodes() -> (query: String)
        ensures
            query@ == ALL_ROOT_NODES_QUERY@,
    {
        String::from_str(ALL_ROOT_NODES_QUERY)
    }

    /// Query for the keys of the root `variables` block.
    pub fn get_root_variables() -> (query: String)
        ensures
            query@ == ROOT_VARIABLES_QUERY@,
    {
        String::from_str(ROOT_VARIABLES_QUERY)
    }

    /// Query for the entries of the `stages` list.
    pub fn get_stage_definitions() -> (query: String)
        ensures
            query@ == STAGE_DEFINITIONS_QUERY@,
    {
        String::from_str(STAGE_DEFINITIONS_QUERY)
    }

    /// Query for every `stage:` value.
    pub fn get_all_stages() -> (query: String)
        ensures
            query@ == ALL_STAGES_QUERY@,
    {
        String::from_str(ALL_STAGES_QUERY)
    }

    /// Query that classifies what the cursor stands on.
    pub fn get_position_type() -> (query: String)
        ensures
            query@ == position_type_query(),
    {
        let mut query = String::from_str(POSITION_SEPARATOR);
        query.append(POSITION_SEARCH_EXTENDS);
        query.append(POSITION_SEPARATOR);
        query.append(POSITION_SEARCH_STAGES);
        query.append(POSITION_SEPARATOR);
        query.append(POSITION_SEARCH_VARIABLES);
        query.append(POSITION_SEPARATOR);
        query.append(POSITION_SEARCH_ROOT_NODE);
        query.append(POSITION_SEPARATOR);
        query.append(POSITION_SEARCH_LOCAL_INCLUDE);
        query.append(POSITION_SEPARATOR);
        query.append(POSITION_SEARCH_PROJECT_INCLUDES);
        query.append(POSITION_SEPARATOR);
        query.append(POSITION_SEARCH_JOB_NEEDS);
        query.append(POSITION_SEPARATOR);
        query.append(POSITION_SEARCH_REMOTE_URLS);
        query.append(POSITION_END);
        query
    }

    /// Query for `needs: - job:` entries, all of them or those naming `needs_name`.
    pub fn get_all_job_needs(needs_name: Option<&str>) -> (query: String)
        ensures
            query@ == job_needs_query(opt_text(needs_name)),
    {
        let mut query = String::from_str(JOB_NEEDS_QUERY_HEAD);
        append_filter(&mut query, NEEDS_FILTER_HEAD, needs_name);
        query.append(JOB_NEEDS_QUERY_TAIL);
        query
    }

    /// Query for each root node together with its whole block.
    pub fn get_root_node_at_position() -> (query: String)
        ensures
            query@ == ROOT_NODE_AT_POSITION_QUERY@,
    {
        String::from_str(ROOT_NODE_AT_POSITION_QUERY)
    }

    /// Query for variable `variable_name` defined under `variables:` of job `job_name`.
    pub fn get_job_variable_definition(job_name: &str, variable_name: &str) -> (query: String)
        ensures
            query@ == job_variable_query(job_name@, variable_name@),
    {
        let mut query = String::from_str(JOB_VARIABLE_QUERY_HEAD);
        query.append(job_name);
        query.append(JOB_VARIABLE_QUERY_MIDDLE);
        query.append(variable_name);
        query.append(JOB_VARIABLE_QUERY_TAIL);
        query
    }
}

} // verus!
