[package]
name = "peer_tracker"
version = "0.1.0"
edition = "2021"
publish = false

[dependencies]
diesel = { version = "2", features = ["sqlite", "r2d2"] }
r2d2 = "0.8"
serde = { version = "1", features = ["derive"] }
serde_cbor = "0.11"
tokio = { version = "1", features = ["io-util", "net", "sync", "time"] }
tokio-socks = "0.5"
tracing = "0.1"
