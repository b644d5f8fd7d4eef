[package]
name = "lsp_backend"
version = "0.1.0"
edition = "2021"
publish = false

[dependencies]
tokio = { version = "1", features = ["full"] }
tower-lsp = "0.20"
