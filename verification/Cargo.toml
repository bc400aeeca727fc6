[package]
name = "mail_forge"
version = "0.1.0"
edition = "2021"
publish = false

[dependencies]
chrono = "*"
env_logger = "*"
hex = "*"
hmac = "*"
log = "*"
mailparse = "*"
rand = "*"
reqwest = { version = "*", default-features = false, features = ["multipart", "rustls-tls"] }
rustls = "*"
sanitize-filename = "*"
serde = { version = "*", features = ["derive"] }
sha2 = "*"
tokio = { version = "*", features = ["full"] }
tokio-rustls = "*"
toml = "*"
