[package]
name = "synth_core"
version = "0.1.0"
edition = "2021"
publish = false

[dependencies]
cpal = "=0.13.5"
midir = "=0.7.0"
serde = { version = "=1.0.229", features = ["derive"] }
tauri = "0.11"
