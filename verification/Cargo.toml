[package]
name = "cjtaskrunner"
version = "0.1.0"
edition = "2021"
publish = false

[dependencies]
shlex = "1.3"
serde_json = "1"
notify = "*"
tokio = { version = "1", features = ["rt-multi-thread", "macros", "io-std"] }
tower-lsp = "0.20"
