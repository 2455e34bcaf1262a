[package]
name = "secret_grabber"
version = "0.1.0"
edition = "2021"
publish = false

[dependencies]
headless_chrome = { version = "=1.0.22", default-features = false, features = ["offline"] }
serde = { version = "=1.0.229", features = ["derive"] }
serde_json = "=1.0.151"
tracing = "=0.1.44"
