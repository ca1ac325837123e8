[package]
name = "pure_hfsm"
version = "0.1.0"
edition = "2021"
publish = false

[dependencies]
ahash = "=0.8.12"
serde = { version = "=1.0.229", features = ["derive"] }
