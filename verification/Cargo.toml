[package]
name = "crypto_transform_hub"
version = "0.1.0"
edition = "2021"
publish = false

[dependencies]
redpanda-transform-sdk = "*"

[dev-dependencies]
serde_json = "*"
