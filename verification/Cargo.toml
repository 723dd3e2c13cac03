[package]
name = "elp_core"
version = "0.1.0"
edition = "2021"
publish = false

[dependencies]
lsp-types = "0.95"

[dev-dependencies]
serde_json = "1"
