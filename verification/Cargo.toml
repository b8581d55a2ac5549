[package]
name = "liteginx"
version = "0.1.0"
edition = "2021"
publish = false

[dependencies]
matchit = "0.8"
rand = "0.9"
humantime = "2"
serde_json = "1"
serde = { version = "1", features = ["derive"] }
serde_yaml = "0.9"
clap = { version = "4", features = ["derive"] }
tokio = { version = "1", features = ["full"] }
tracing = "0.1"
tracing-subscriber = "0.3"
