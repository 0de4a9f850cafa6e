[package]
name = "rmcp"
version = "0.1.0"
edition = "2021"
publish = false

[dependencies]
serde = { version = "1", features = ["derive"] }
serde_json = "1"
bincode = "1.3"
thiserror = "1"
async-trait = "0.1"
tokio = { version = "1", features = ["sync", "rt", "rt-multi-thread", "macros", "net", "time"] }
tokio-stream = "0.1"
tokio-util = "0.7"
futures = "0.3"
axum = "0.8"
tracing = "0.1"
uuid = { version = "1", features = ["v4"] }
redis = { version = "0.24", features = ["tokio-comp", "connection-manager"] }
