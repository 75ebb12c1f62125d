[package]
name = "redqueue"
version = "0.1.0"
edition = "2021"
publish = false

[dependencies]
uuid = { version = "1.7", features = ["v4"] }
redis = { version = "0.24", features = ["tokio-comp", "connection-manager"] }
tokio = { version = "1.36", features = ["full"] }
tokio-stream = "0.1"
futures = "0.3"
serde = { version = "1.0", features = ["derive"] }
serde_json = "1.0"
thiserror = "1.0"
log = "0.4"
env_logger = "0.10"
