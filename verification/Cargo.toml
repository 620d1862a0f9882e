[package]
name = "rcd_server"
version = "0.1.0"
edition = "2021"
publish = false

[dependencies]
regex = "1"
serde = { version = "1", features = ["derive"] }
toml = "0.8"
csv = "1"
thiserror = "1"
anyhow = "1"
log = "0.4"
env_logger = "0.11"
tokio = { version = "1", features = ["full"] }
tokio-util = { version = "0.7", features = ["codec"] }
futures = "0.3"
bytes = "1"
bincode = "1"
chrono = "0.4"
bounded-vec-deque = "0.1"
serialport = { version = "4", default-features = false }
