[package]
name = "websockit"
version = "0.1.0"
edition = "2021"
publish = false

[dependencies]
axum = { version = "0.7", default-features = false, features = ["ws", "tokio", "http1"] }
futures = "0.3"
futures-util = "0.3"
tokio = { version = "1", features = ["sync", "net", "rt", "macros"] }
tokio-tungstenite = "0.24"
tracing = "0.1"
uuid = { version = "1", features = ["v4"] }
