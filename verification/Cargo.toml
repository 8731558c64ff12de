[package]
name = "webhook_server"
version = "0.1.0"
edition = "2021"
publish = false

[dependencies]
actix = "0.13"
actix-web = { version = "4", features = ["rustls"] }
anyhow = "1"
base64 = "0.21"
chrono = "0.4"
config = "0.11"
dirs = "4"
hex = "0.4"
hmac = "0.12"
log = "0.4"
rustls = "0.20"
rustls-pemfile = "1"
serde = { version = "1", features = ["derive"] }
serde_json = "1"
sha1 = "0.10"
sha2 = "0.10"
simplelog = "0.12"
subprocess = "0.2"
