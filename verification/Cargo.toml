[package]
name = "gdsfx"
version = "0.1.0"
edition = "2021"
publish = false

[dependencies]
ahash = "0.8"
urlencoding = "2"
anyhow = "1"
serde = { version = "1", features = ["derive"] }
serde_json = "1"
directories = "5"
url = "2"
reqwest = { version = "0.12", default-features = false, features = ["blocking", "rustls-tls"] }
