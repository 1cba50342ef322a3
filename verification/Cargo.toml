[package]
name = "my_sb_node"
version = "0.1.0"
edition = "2021"
publish = false

[dependencies]
uuid = { version = "1", features = ["v4"] }
serde = { version = "1", features = ["derive"] }
serde_yaml = "0.9"
tokio = { version = "1", features = ["full"] }
parking_lot = "0.12"
arc-swap = "1"
async-trait = "0.1"
