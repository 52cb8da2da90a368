[package]
name = "gitlab_ci_ls"
version = "0.1.0"
edition = "2021"
publish = false

[dependencies]
lsp-types = "0.95"
lsp-server = "0.7"
serde_json = "1"
anyhow = "1"
log = "0.4"
