[package]
name = "tgrab"
version = "0.1.0"
edition = "2021"
publish = false

[dependencies]
anyhow = "=1.0.104"
clap = { version = "=4.6.7", features = ["derive"] }
quick-xml = "=0.37.5"
regex = "=1.13.1"
regex-syntax = "=0.8.11"
serde_json = "=1.0.154"
tokio = { version = "=1.54.1", features = ["rt-multi-thread", "macros"] }
