[package]
name = "haval_tool"
version = "0.1.0"
edition = "2021"
publish = false

[dependencies]
default-net = "=0.22.0"
reqwest = { version = "=0.12.28", default-features = false, features = ["rustls-tls"] }
serde = { version = "1", features = ["derive"] }
serde_json = "=1.0.154"
tokio = { version = "1", features = ["io-util", "net", "sync", "time"] }
