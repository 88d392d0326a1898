[package]
name = "server_kit"
version = "0.1.0"
edition = "2021"
publish = false

[dependencies]
tokio = { version = "*", features = ["full"] }
serde = "*"
serde_derive = "*"
toml = "*"
