[package]
name = "http_me"
version = "0.1.0"
edition = "2021"
publish = false

[dependencies]
fastly = "*"
serde_json = "*"
