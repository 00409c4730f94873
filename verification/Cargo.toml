[package]
name = "sshx_server"
version = "0.1.0"
edition = "2021"
publish = false

[dependencies]
anyhow = "1"
async-channel = "1"
async-stream = "0.3"
axum = { version = "0.5", features = ["ws"] }
ciborium = "0.2"
dashmap = "5"
hyper = "0.14"
parking_lot = "0.12"
serde = { version = "1", features = ["derive"] }
serde_bytes = "0.11"
tokio = { version = "1", features = ["macros", "rt", "sync", "time"] }
tokio-stream = { version = "0.1", features = ["sync"] }
tower-http = { version = "0.3", features = ["fs"] }
tracing = "0.1"
