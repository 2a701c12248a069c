[package]
name = "school_sanctioned_gambling"
version = "0.1.0"
edition = "2021"
publish = false

[dependencies]
rand = "0.8"
serde = { version = "1", features = ["derive"] }
serde_json = "1"
bincode = "1"
anyhow = "1"
tokio = { version = "1", features = ["io-util", "net", "rt"] }
local-ip-address = "*"
shrev = "1"
