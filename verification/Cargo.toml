[package]
name = "log_ingest"
version = "0.1.0"
edition = "2021"
publish = false

[dependencies]
chrono = "*"
serde_json = "*"
arrow-array = "*"
arrow-schema = "*"
