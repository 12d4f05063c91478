[package]
name = "openai_api_rust"
version = "0.1.0"
edition = "2021"
publish = false

[dependencies]
log = "=0.4.34"
mime = "=0.3.17"
mime_guess = "=2.0.5"
rand = "=0.8.8"
serde = { version = "=1.0.229", features = ["derive"] }
serde_json = "=1.0.154"
ureq = { version = "=2.12.1", features = ["json"] }

[dev-dependencies]
multipart = { version = "=0.18.0", default-features = false, features = ["server"] }
