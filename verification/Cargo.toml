[package]
name = "candi"
version = "0.1.0"
edition = "2021"
publish = false

[dependencies]
clap = { version = "=4.6.7", features = ["derive"] }
serde = { version = "=1.0.229", features = ["derive"] }
serde_json = "1"
serde_yaml = "=0.9.34"
toml = "=1.1.8"
