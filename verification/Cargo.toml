[package]
name = "moth"
version = "0.1.0"
edition = "2021"
publish = false

[dependencies]
base64 = "0.22"
clap = { version = "4", features = ["derive"] }
hotwatch = "0.5"
katex = "0.4"
tiny_http = "0.12"
tungstenite = "*"
