[package]
name = "qqbot"
version = "0.1.0"
edition = "2021"
publish = false

[dependencies]
rand = "=0.8.8"
base64 = "=0.21.7"
serde = { version = "=1.0.229", features = ["derive"] }
serde_json = "=1.0.154"
hyper = { version = "=0.14.32", features = ["full"] }
tokio = { version = "=1.54.1", features = ["full"] }
reqwest = { version = "=0.11.27", default-features = false, features = ["rustls-tls"] }
crossbeam-channel = "=0.5.17"
lazy_static = "=1.5.1"
