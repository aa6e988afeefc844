[package]
name = "gas_config"
version = "0.1.0"
edition = "2021"
publish = false

[dependencies]
blake3 = "1"
serde_json = "1"
