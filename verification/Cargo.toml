[package]
name = "aurora_eth_connector"
version = "0.1.0"
edition = "2021"
publish = false

[dependencies]
near-sdk = { version = "=5.15.1", features = ["unit-testing"] }
aurora-engine-types = "=1.0.0"
