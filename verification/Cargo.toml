[package]
name = "cbor_cobs"
version = "0.1.0"
edition = "2021"

[dependencies]
serde = "*"
serde_cbor = "*"
cobs = "*"
bytes = "*"
tokio-util = { version = "*", features = ["codec"] }
thiserror = "*"
