[package]
name = "tribble"
version = "0.1.0"
edition = "2021"
publish = false

[dependencies]
base64 = "0.13"
serde = { version = "1", features = ["derive"] }
serde_yaml = "0.8"
clap = { version = "3", features = ["derive"] }
pulldown-cmark = "0.9"
