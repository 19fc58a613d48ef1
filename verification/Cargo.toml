[package]
name = "wm-busbridge"
version = "0.2.0"
edition = "2021"
publish = false

[dependencies]
anyhow = "1"
async-nats = "*"
async-trait = "0.1"
bytes = "1"
clap = { version = "4", features = ["derive", "env"] }
futures = "0.3"
serde = { version = "1", features = ["derive"] }
serde_json = "1"
sigpipe = "*"
tokio = { version = "1", features = ["full"] }
tracing = "0.1"
tracing-subscriber = { version = "0.3", features = ["env-filter"] }
