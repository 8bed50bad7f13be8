[package]
name = "transcribe_chunks"
version = "0.1.0"
edition = "2021"
publish = false

[dependencies]
uuid = { version = "1", features = ["v4"] }
anyhow = "1"
serde = { version = "1", features = ["derive"] }
serde_json = "1"
async-channel = "2"
rayon = "1"
hound = "3"
tempfile = "3"
tokio = { version = "1", features = ["rt-multi-thread", "macros", "process", "sync"] }
actix-web = { version = "4", default-features = false, features = ["macros"] }
actix-multipart = { version = "0.6", default-features = false }
futures = "0.3"
env_logger = "0.11"
