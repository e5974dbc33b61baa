[package]
name = "ferrosa_cluster"
version = "0.1.0"
edition = "2021"
publish = false

[dependencies]
openraft = "0.9"
uuid = { version = "1", features = ["v4"] }
tokio = { version = "1", features = ["full"] }
tokio-util = "0.7"
async-trait = "0.1"
serde = { version = "1", features = ["derive"] }
serde_json = "1"
bincode = "1"
bytes = "1"
arc-swap = "1"
parking_lot = "0.12"
tracing = "0.1"
