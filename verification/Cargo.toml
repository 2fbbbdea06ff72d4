[package]
name = "whisper-notes"
version = "0.1.0"
edition = "2021"
publish = false

[dependencies]
ctrlc = "3"
regex = "1"
rodio = "0.20"
serde = { version = "1", features = ["derive"] }
serde_json = "1"
x11rb = "0.13"
