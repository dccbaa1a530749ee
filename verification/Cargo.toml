[package]
name = "zenlang"
version = "0.1.0"
edition = "2021"
publish = false

[dependencies]
clap = { version = "4", features = ["derive"] }
camino = "1"
ctrlc = "3"
lsp-server = "*"
lsp-types = "*"
serde_json = "1"
snafu = "0.8"
tracing = "0.1"
tracing-subscriber = { version = "0.3", features = ["env-filter"] }
tracing-appender = "0.2"
