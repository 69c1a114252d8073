[package]
name = "stryke-app"
version = "0.1.0"
edition = "2021"
publish = false

[dependencies]
anyhow = "1"
interprocess = "2"
once_cell = "1"
serde_json = "1"
