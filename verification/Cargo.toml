[package]
name = "sdiff"
version = "0.1.0"
edition = "2021"
publish = false

[dependencies]
serde_json = { version = "=1.0.151", features = ["preserve_order"] }
serde_yaml = "=0.9.34"
toml = { version = "=1.1.7", features = ["preserve_order"] }
