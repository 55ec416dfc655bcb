[package]
name = "quotefeed"
version = "0.1.0"
edition = "2021"
publish = false

[dependencies]
serde = { version = "*", features = ["derive"] }
serde_json = { version = "*", features = ["arbitrary_precision"] }
chrono = "*"
tokio = { version = "*", features = ["full"] }
futures = "*"
crypto-ws-client = "*"
