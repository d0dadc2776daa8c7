[package]
name = "ntag216"
version = "0.1.0"
edition = "2021"
publish = false

[dependencies]
anyhow = "1"
pcsc = "2"
serde = { version = "1", features = ["derive"] }
