[package]
name = "json_env"
version = "0.1.0"
edition = "2021"
publish = false

[dependencies]
serde_json = "1"
jsonpath-rust = "0.5"
clap = { version = "4", features = ["derive"] }
dialoguer = "0.11"
dirs = "5"
