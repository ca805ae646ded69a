[package]
name = "plex_proxy"
version = "0.1.0"
edition = "2021"
publish = false

[dependencies]
axum = "0.7"
env_logger = "0.11"
log = "0.4"
reqwest = { version = "0.12", default-features = false, features = ["gzip", "stream"] }
serde = { version = "1", features = ["derive"] }
serde_json = "1"
tokio = { version = "1", features = ["macros", "net", "rt-multi-thread", "sync"] }
