[package]
name = "trojan_core"
version = "0.1.0"
edition = "2021"
publish = false

[dependencies]
sha2 = "0.10"
tokio = { version = "1", features = ["full"] }
tokio-rustls = "0.23"
tokio-tungstenite = "0.17"
quinn = "0.8"
serde = { version = "1", features = ["derive"] }
serde_json = "1"
anyhow = "1"
structopt = "0.3"
tracing = "0.1"
url = "2"
futures = "0.3"
bytes = "1"
pin-project-lite = "0.2"
