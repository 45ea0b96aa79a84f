[package]
name = "anura"
version = "0.1.0"
edition = "2021"
publish = false

[dependencies]
ahash = "*"
bytemuck = { version = "*", features = ["derive"] }
fontdue = "*"
