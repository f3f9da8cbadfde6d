[package]
name = "gray_matter"
version = "0.1.0"
edition = "2021"
publish = false

[dev-dependencies]
serde_yaml = "0.9"
toml = "0.8"
