[package]
name = "holonet"
version = "0.1.0"
edition = "2021"
publish = false

[dependencies]
uuid = { version = "1", features = ["v4"] }
chrono = "0.4"
tokio = { version = "1", features = ["full"] }
warp = "0.3"
futures = "0.3"
tokio-stream = "0.1"
