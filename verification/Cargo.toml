[package]
name = "revproxy"
version = "0.1.0"
edition = "2021"
publish = false

[dependencies]
anyhow = "1"
env_logger = "0.10"
hyper = { version = "0.14", features = ["full"] }
hyper-tls = "0.5"
log = "0.4"
once_cell = "1"
route-recognizer = "0.3"
serde = { version = "1", features = ["derive"] }
serde_yaml = "0.9"
tokio = { version = "1", features = ["full"] }
tower = { version = "0.4", features = ["full"] }
tower-http = { version = "0.4", features = ["trace"] }
