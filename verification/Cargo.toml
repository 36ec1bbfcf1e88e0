[package]
name = "gcs_storage"
version = "0.1.0"
edition = "2021"
publish = false

[dependencies]
serde_json = "*"
ya-gcp = { version = "*", features = ["storage"] }
eyre = "*"
tracing = "*"
