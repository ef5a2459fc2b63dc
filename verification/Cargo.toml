[package]
name = "sops"
version = "0.1.0"
edition = "2021"
publish = false

[dependencies]
aes-gcm = "0.10"
rand = "0.8"

[dev-dependencies]
serde_json = "1"
serde_yaml = "0.9"
