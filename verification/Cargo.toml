[package]
name = "pastebin_server"
version = "0.1.0"
edition = "2021"
publish = false

[dependencies]
short-crypt = "1"
rand = "0.8"
regex = "1"
serde = { version = "1", features = ["derive"] }
serde_json = "1"
serde_repr = "0.1"
anyhow = "1"
toml = "0.8"
camino = "1"
clap = { version = "4", features = ["derive"] }
tokio = { version = "1", features = ["full"] }
axum = "0.6"
tower = { version = "0.4", features = ["buffer", "limit", "load-shed", "util"] }
tracing = "0.1"
tracing-subscriber = { version = "0.3", features = ["env-filter"] }
mobc-redis = "0.8"
