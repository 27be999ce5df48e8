[package]
name = "space_ingest"
version = "0.1.0"
edition = "2021"
publish = false

[dependencies]
csv = "*"
dirs = "*"
reqwest = { version = "*", default-features = false, features = ["blocking", "multipart"] }
serde = { version = "*", features = ["derive"] }
serde_json = "*"
