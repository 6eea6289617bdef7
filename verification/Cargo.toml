[package]
name = "p4_lsp"
version = "0.1.0"
edition = "2021"
publish = false

[dependencies]
dashmap = "5"
env_logger = "*"
log = "0.4"
ropey = "1"
serde = { version = "1", features = ["derive"] }
serde_json = "1"
tokio = { version = "1", features = ["full"] }
tower-lsp = "0.20"
