[package]
name = "code_ref_mcp"
version = "0.1.0"
edition = "2021"
publish = false

[dependencies]
anyhow = "1"
async-trait = "0.1"
mcp_rust_sdk = "*"
rayon = "1"
serde = { version = "1", features = ["derive"] }
serde_json = "1"
tantivy = "0.22"
tokio = { version = "1", features = ["full"] }
tracing = "0.1"
tree-sitter = "*"
tree-sitter-javascript = "*"
tree-sitter-python = "*"
tree-sitter-rust = "*"
walkdir = "2"
