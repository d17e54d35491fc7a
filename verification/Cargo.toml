[package]
name = "minecraft_pinger"
version = "0.1.0"
edition = "2021"
publish = false

[dependencies]
bytes = "1"
rand = "*"
serde = { version = "1", features = ["derive"] }
serde_json = "1"
thiserror = "*"
tokio = { version = "1", features = ["full"] }
hickory-resolver = "*"
log = "0.4"
