[package]
name = "aight"
version = "0.1.0"
edition = "2021"
publish = false

[dependencies]
prost = "*"
bytes = "*"
tokio = { version = "*", features = ["full"] }
tokio-codec = "*"
tokio-io = "*"
futures = "*"
async-std = "*"
colored = "*"
env_logger = "*"
log = "*"
