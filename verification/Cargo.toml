[package]
name = "gn_language_server"
version = "0.1.0"
edition = "2021"
publish = false

[dependencies]
tower-lsp = "0.20"
tokio = { version = "1", features = ["macros", "rt-multi-thread", "io-std", "sync"] }
serde = { version = "1", features = ["derive"] }
serde_json = "1"
walkdir = "2"
which = "*"
fs-err = "*"
itertools = "*"
either = "1"
thiserror = "*"
futures = "0.3"
