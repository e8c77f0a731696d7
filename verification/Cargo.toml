[package]
name = "ai_step_gen_suite"
version = "0.1.0"
edition = "2021"
publish = false

[dependencies]
sha2 = "0.10"
hex = "0.4"
aes-gcm = "0.10"
pbkdf2 = "0.12"
rand = "0.8"
base64 = "0.22"
zeroize = "1"
serde = { version = "1", features = ["derive"] }
serde_json = "1"
chrono = "0.4"
dotenvy = "0.15"
tokio = { version = "1", features = ["sync", "fs", "rt", "macros"] }
reqwest = { version = "0.12", default-features = false, features = ["json"] }
