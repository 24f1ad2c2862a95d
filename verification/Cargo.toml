[package]
name = "tradingbutler"
version = "0.1.0"
edition = "2021"
publish = false

[dependencies]
anyhow = "1"
async-stream = "0.3"
axum = { version = "0.8", features = ["ws"] }
axum-client-ip = "1"
bytes = "1"
clap = { version = "4", features = ["derive"] }
env_logger = "0.11"
envconfig = "0.11"
futures-util = "0.3"
ipnet = "2"
log = "0.4"
redis = { version = "1", features = ["tokio-comp", "connection-manager", "streams"] }
rustls = { version = "0.23", default-features = false, features = ["ring", "std"] }
serde = { version = "1", features = ["derive"] }
serde_json = "1"
sha2 = "0.10"
tokio = { version = "1", features = ["full"] }
uuid = { version = "1", features = ["v4"] }
