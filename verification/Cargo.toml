[package]
name = "aptu_coder"
version = "0.1.0"
edition = "2021"
publish = false

[dependencies]
regex = "1"
base64 = "0.22"
serde_json = "1"
serde = { version = "1", features = ["derive"] }
blake3 = "1"
tokio = { version = "1", features = ["full"] }
toml = "*"
