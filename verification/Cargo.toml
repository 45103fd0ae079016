[package]
name = "paper_dump"
version = "0.1.0"
edition = "2021"
publish = false

[dependencies]
anyhow = "1"
base64 = "0.13"
chrono = "0.4"
dropbox-sdk = "*"
libc = "0.2"
ring = "*"
serde = { version = "1", features = ["derive"] }
serde_json = "1"
threadpool = "1"
ureq = "2"
url = "2"
