[package]
name = "sg_attribution"
version = "0.1.0"
edition = "2021"
publish = false

[dependencies]
ipnetwork = { version = "0.20", default-features = false }
serde = { version = "1", features = ["derive"] }
serde_json = "1"
flate2 = "1"
