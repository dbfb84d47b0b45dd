[package]
name = "openmeet_core"
version = "0.1.0"
edition = "2021"
publish = false

[dependencies]
bcrypt = "=0.19.3"
chrono = "=0.4.45"
jsonwebtoken = { version = "=11.1.0", features = ["rust_crypto"], default-features = false }
regex = "=1.13.1"
serde_json = "=1.0.151"
uuid = { version = "=1.27.0", features = ["v4"] }
