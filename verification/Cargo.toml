[package]
name = "moonjuice"
version = "0.1.0"
edition = "2021"
publish = false

[dependencies]
tower-lsp-server = "*"
tokio = { version = "1", features = ["rt-multi-thread", "macros", "io-std"] }
dashmap = "*"
