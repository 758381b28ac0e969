[package]
name = "gps_auth"
version = "0.1.0"
edition = "2021"
publish = false

[dependencies]
hmac = "*"
sha2 = "*"
pbkdf2 = "*"
rand = "*"
serde = { version = "*", features = ["derive"] }
serde_json = "*"
toml = "*"
clap = { version = "*", features = ["derive"] }
axum = "*"
tokio = { version = "*", features = ["full"] }
tokio-util = { version = "*", features = ["io"] }
chrono = "*"
log = "*"
lazy_static = "*"
thiserror = "*"

[dev-dependencies]
base64 = "*"
hex = "*"
