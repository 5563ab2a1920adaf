[package]
name = "phala_core"
version = "0.1.0"
edition = "2021"
publish = false

[dependencies]
ring = "*"
base64 = "*"
hex = "*"
sp-core = "*"
serde = "*"
serde_json = "*"
