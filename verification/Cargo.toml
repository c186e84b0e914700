[package]
name = "state_sync"
version = "0.1.0"
edition = "2021"
publish = false

[dependencies]
futures-util = "0.3"
glam = { version = "0.27", features = ["serde"] }
log = "0.4"
macroquad = { version = "0.4", default-features = false }
pretty_env_logger = "0.4"
serde = { version = "1", features = ["derive"] }
serde_json = "1"
tokio = { version = "1", features = ["full"] }
tokio-stream = "0.1"
tungstenite = "0.20"
warp = "0.3"
