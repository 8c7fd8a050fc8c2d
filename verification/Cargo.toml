[package]
name = "htn"
version = "0.1.0"
edition = "2021"
publish = false

[dependencies]
vecmap-rs = "*"
unescape = "=0.1.0"
serde = { version = "=1.0.229", features = ["derive"] }
rmp-serde = "=1.3.1"
base64 = "=0.23.1"
