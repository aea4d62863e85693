[package]
name = "onecrl_cert_storage"
version = "0.1.0"
edition = "2021"
publish = false

[dependencies]
base64 = "0.13"
clap = "2"
curl = "0.4"
error-chain = "0.12"
reqwest = { version = "0.12", features = ["blocking", "json"] }
rkv = "0.19"
serde = { version = "1", features = ["derive"] }
serde_json = "1"
