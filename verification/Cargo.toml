[package]
name = "archypix_app_back"
version = "0.1.0"
edition = "2021"
publish = false

[dependencies]
pwhash = "=1.0.0"
hex = "=0.4.3"
serde = { version = "=1.0.229", features = ["derive"] }
serde_json = "=1.0.154"
chrono = "=0.4.45"
rand = "=0.9.5"
totp-rs = "=5.7.2"
blurhash = "0.2"
