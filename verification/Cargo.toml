[package]
name = "procedural_generation"
version = "0.1.0"
edition = "2021"
publish = false

[dependencies]
rand = "=0.9.5"
noise = "0.9"
serde = { version = "1", features = ["derive"] }
ron = "0.8"
