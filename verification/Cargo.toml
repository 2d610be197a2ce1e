[package]
name = "k_language_server"
version = "0.1.0"
edition = "2021"
publish = false

[dependencies]
dashmap = "5"
tokio = { version = "1", features = ["io-std", "macros", "process", "rt-multi-thread"] }
tower-lsp = "0.20"
