[package]
name = "loom_storage"
version = "0.1.0"
edition = "2021"
publish = false

[dependencies]
anyhow = "*"
base32 = "*"
base64 = "*"
chrono = { version = "*", features = ["serde"] }
ekv = "*"
hmac = "*"
postcard = { version = "*", features = ["alloc"] }
serde = { version = "*", features = ["derive"] }
sha2 = "*"
