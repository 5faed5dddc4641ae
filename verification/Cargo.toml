[package]
name = "ws_relay"
version = "0.1.0"
edition = "2021"
publish = false

[dependencies]
tokio = { version = "*", features = ["sync", "net", "rt-multi-thread", "macros"] }
tokio-tungstenite = "*"
futures-util = "*"
log = "*"
env_logger = "*"
