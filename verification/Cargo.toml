[package]
name = "federated_auth"
version = "0.1.0"
edition = "2021"
publish = false

[dependencies]
base64 = "*"
chrono = "*"
figment = { version = "*", features = ["env"] }
hmac = "*"
rand = "*"
reqwest = { version = "*", default-features = false }
serde = { version = "*", features = ["derive"] }
serde_json = "*"
sha2 = "*"
