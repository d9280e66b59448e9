[package]
name = "foundry"
version = "0.1.0"
edition = "2021"
publish = false

[dependencies]
aes-gcm = "=0.10.3"
base64 = "=0.22.1"
sha2 = "=0.10.9"
rand = "=0.9.5"
uuid = { version = "=1.29.0", features = ["v7"] }
argon2 = "0.5"
subtle = "2"
serde = { version = "1", features = ["derive"] }
serde_json = "1"
toml = "0.8"
