[package]
name = "rusmes_jmap"
version = "0.1.0"
edition = "2021"
publish = false

[dependencies]
sha2 = "0.10"
base64 = "0.22"
uuid = { version = "1", features = ["v4"] }
dashmap = "6"
chrono = { version = "0.4", features = ["serde"] }
serde = { version = "1", features = ["derive"] }
serde_json = "1"
axum = "0.8"
tokio = { version = "1", features = ["full"] }
getrandom = "0.3"
async-trait = "0.1"
anyhow = "1"
futures = "0.3"
async-stream = "0.3"
tracing = "0.1"
bytes = "1"
thiserror = "2"
