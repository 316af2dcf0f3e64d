[package]
name = "kt_resolver"
version = "0.1.0"
edition = "2021"
publish = false

[dependencies]
dashmap = "*"
log = "*"
serde = { version = "1", features = ["derive"] }
serde_json = "1"
tokio = { version = "1", features = ["rt"] }
tower-lsp = "*"
tree-sitter = "*"
