[package]
name = "ancla"
version = "0.1.0"
edition = "2021"
publish = false

[dependencies]
fnv_rs = "*"
serde = { version = "*", features = ["derive"] }
serde_json = "*"
