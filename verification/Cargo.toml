[package]
name = "bflib"
version = "0.1.0"
edition = "2021"
publish = false

[dependencies]
immutable-chunkmap = "*"
serde = { version = "*", features = ["derive"] }
serde_json = "*"
