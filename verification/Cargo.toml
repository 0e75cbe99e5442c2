[package]
name = "novaprox"
version = "0.1.0"
edition = "2021"
publish = false

[dependencies]
ahash = "0.8"
anyhow = "1"
base64 = "0.22"
clap = { version = "4", features = ["derive"] }
futures = "0.3"
litemap = "*"
log = "0.4"
percent-encoding = "2"
reqwest = { version = "0.12", default-features = false, features = ["socks", "rustls-tls"] }
serde_json = "1"
simple_logger = "5"
surge-ping = "*"
tokio = { version = "1", features = ["full"] }
url = "2"
