[package]
name = "mediameta"
version = "0.1.0"
edition = "2021"
publish = false

[dependencies]
ffmpeg = "*"
serde = { version = "*", features = ["derive"] }
serde_json = "*"
