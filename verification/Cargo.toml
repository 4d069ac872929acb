[package]
name = "altcha"
version = "0.1.0"
edition = "2021"
publish = false

[dependencies]
argon2 = "0.5"
hex = "0.4"
hmac = "0.12"
pbkdf2 = "0.12"
rand = "0.8"
scrypt = "0.11"
serde = { version = "1", features = ["derive"] }
serde_json = "1"
sha2 = "0.10"
subtle = "2"
thiserror = "1"
