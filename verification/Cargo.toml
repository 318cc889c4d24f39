[package]
name = "sorastats"
version = "0.1.0"
edition = "2021"
publish = false

[dependencies]
regex = "*"
chrono = "*"
serde = { version = "*", features = ["derive"] }
serde_json = "*"
ureq = { version = "*", default-features = false }
