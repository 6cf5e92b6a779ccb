[package]
name = "babylon"
version = "0.1.0"
edition = "2021"
publish = false

[dependencies]
rand = "0.8"
base64ct = { version = "1", features = ["alloc"] }
sha2 = "0.10"
dashmap = "6"
tokio = { version = "1", features = ["full"] }
axum = "0.8"
rmcp = { version = "*", features = ["server", "macros", "transport-streamable-http-server"] }
serde = { version = "1", features = ["derive"] }
serde_json = "1"
schemars = "*"
clap = { version = "4", features = ["derive", "env"] }
anyhow = "1"
tracing = "0.1"
tracing-subscriber = { version = "0.3", features = ["env-filter"] }
figment = { version = "0.10", features = ["toml", "env"] }
tower = { version = "0.5", features = ["limit"] }
tower-http = { version = "0.6", features = ["limit"] }
http = "1"
