[package]
name = "topos_host"
version = "0.1.0"
edition = "2021"
publish = false

[dependencies]
axum = "0.7"
byteorder = "1"
env_logger = "0.11"
mdns-sd = "*"
openssl = "0.10"
reqwest = { version = "0.12", features = ["stream"] }
rust_cast = "*"
serde = { version = "1", features = ["derive"] }
serde_json = "1"
tokio = { version = "1", features = ["full"] }
url = "2"
urlencoding = "2"
