[package]
name = "agent"
version = "0.1.0"
edition = "2021"
publish = false

[dependencies]
serde_json = { version = "1", features = ["preserve_order"] }
serde = { version = "1", features = ["derive"] }
schemars = "1"
anyhow = "1"
log = "0.4"
axum = "0.6"
tokio = { version = "1", features = ["rt", "net", "sync", "time"] }
agent-client-protocol = "*"
