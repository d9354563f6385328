[package]
name = "lumen_diff"
version = "0.1.0"
edition = "2021"
publish = false

[dependencies]
base64 = "0.22"
ratatui = { version = "0.29", default-features = false }
serde = { version = "1", features = ["derive"] }
serde_json = "1"
spinoff = "0.8"
