[package]
name = "dmc_parser"
version = "0.1.0"
edition = "2021"
publish = false

[dependencies]
htmlentity = "1"
unicode-general-category = "1"
blake3 = "1"
base64 = "0.22"
image = { version = "0.25", default-features = false, features = ["png", "jpeg", "webp"] }
serde = { version = "1", features = ["derive"] }
serde_json = "1"
