[package]
name = "stt"
version = "0.1.0"
edition = "2021"
publish = false

[dependencies]
chrono = "0.4"
regex = "1"
itertools = "0.12"
nom = "7"
dirs = "5"
serde = { version = "1", features = ["derive"] }
serde_json = "1"
