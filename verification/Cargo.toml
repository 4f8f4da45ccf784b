[package]
name = "frecency_select"
version = "0.1.0"
edition = "2021"
publish = false

[dependencies]
pairing-heap = "*"
csv = "1"
serde = { version = "1", features = ["derive"] }
