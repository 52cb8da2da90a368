//! Verified core of a GitLab CI language server: tree-sitter query builders,
//! the in-memory index of documents and definitions, and the decisions behind
//! go-to-definition, completion, hover, references and diagnostics.

pub mod treesitter_queries;
pub mod text;
pub mod keyed;
pub mod types;
pub mod handlers;
pub mod definition;
pub mod completion;
pub mod diagnostics;
pub mod hover;
pub mod references;
pub mod laws;
pub mod query_laws;
