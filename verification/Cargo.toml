[package]
name = "op_cache"
version = "0.2.0"
edition = "2021"
publish = false

[dependencies]
anyhow = "1"
console = "*"
humantime = "2"
serde = { version = "1", features = ["derive"] }
serde_json = "1"
toml = "*"
