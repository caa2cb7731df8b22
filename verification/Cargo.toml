[package]
name = "quizcore"
version = "0.1.0"
edition = "2021"
publish = false

[dependencies]
argon2 = "=0.6.0"
password-hash = { version = "=0.6.1", features = ["rand_core"] }
unicode-normalization = "=0.1.25"
jsonwebtoken = { version = "=11.1.0", features = ["rust_crypto"] }
serde_json = "=1.0.151"
uuid = { version = "=1.27.0", features = ["v4"] }
