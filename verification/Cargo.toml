[package]
name = "proxmox_core"
version = "0.1.0"
edition = "2021"
publish = false

[dependencies]
anyhow = "1"
base64 = "0.13"
futures = "0.3"
http = "0.2"
hyper = { version = "0.14", features = ["full"] }
log = "0.4"
openssl = "0.10"
percent-encoding = "2"
tokio = { version = "1", features = ["full"] }
tokio-openssl = "0.6"
tokio-stream = "0.1"
