[package]
name = "relay_pairing"
version = "0.1.0"
edition = "2021"
publish = false

[dependencies]
redis = "*"
serde = { version = "1", features = ["derive"] }
serde_json = "1"
ws = "0.9"
