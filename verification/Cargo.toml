[package]
name = "consolevault"
version = "0.1.0"
edition = "2021"
publish = false

[dependencies]
serde = { version = "1", features = ["derive"] }
serde_json = "1"
urlencoding = "2"
walkdir = "2"
reqwest = { version = "0.12", default-features = false, features = ["blocking", "rustls-tls"] }
