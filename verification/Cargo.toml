[package]
name = "player_core"
version = "0.1.0"
edition = "2021"
publish = false

[dependencies]
anyhow = "1"
bytemuck = { version = "1", features = ["derive"] }
cgmath = "0.18"
cpal = "0.15"
minimp3 = "0.5"
pollster = "0.3"
rand = "0.8"
rubato = "0.12"
winit = "0.28"
