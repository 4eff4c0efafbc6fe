[package]
name = "axiomatic"
version = "0.4.0"
edition = "2021"
publish = false

[dependencies]
rand = "0.8"
chrono = "0.4"
serde = { version = "1", features = ["derive"] }
serde_json = "1"
