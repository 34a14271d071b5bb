[package]
name = "manifold_core"
version = "0.1.0"
edition = "2021"
publish = false

[dependencies]
axum = "0.8"
chrono = "0.4"
local-ip-address = "0.6"
log = "0.4"
rfd = "0.15"
serde = { version = "1", features = ["derive"] }
serde_json = "1"
tokio = { version = "1", features = ["net", "sync", "rt-multi-thread"] }
tower-http = { version = "0.6", features = ["cors"] }
