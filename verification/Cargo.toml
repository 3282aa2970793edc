[package]
name = "punch_card"
version = "0.1.0"
edition = "2021"
publish = false

[dependencies]
chrono = "0.4"
rand = "0.9"
serde = { version = "1", features = ["derive"] }
serde_yaml = "0.9"
prettytable-rs = "0.10"
