[package]
name = "chat"
version = "0.1.0"
edition = "2021"
publish = false

[dependencies]
async-std = "1"

[dev-dependencies]
serde_json = "1"
