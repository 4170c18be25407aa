[package]
name = "leo_zap"
version = "0.1.0"
edition = "2021"
publish = false

[dependencies]
rand = "0.8"
serde = { version = "1", features = ["derive"] }
serde_json = "1"
toml = "0.8"
thiserror = "1"
clap = { version = "4", features = ["derive"] }
colored = "2"
anyhow = "1"
env_logger = "0.11"
tokio = { version = "1", features = ["full"] }
tokio-stream = "0.1"
axum = "0.7"
tower-http = { version = "0.5", features = ["cors"] }
uuid = { version = "1", features = ["v4"] }
wasm-bindgen = "0.2"
