[package]
name = "orderbook_merger"
version = "0.1.0"
edition = "2021"
publish = false

[dependencies]
anyhow = "=1.0.104"
futures-util = { version = "=0.3.34", features = ["sink"] }
http = "=1.5.0"
rust_decimal = { version = "=1.43.0", features = ["serde-with-arbitrary-precision"] }
serde = { version = "=1.0.229", features = ["derive"] }
serde_json = "=1.0.154"
tokio = { version = "=1.54.1", features = ["macros", "rt-multi-thread", "sync", "time"] }
tokio-websockets = { version = "=0.13.3", features = ["client", "fastrand", "native-tls", "openssl"] }
tracing = "=0.1.44"
