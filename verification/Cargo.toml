[package]
name = "reel"
version = "0.2.1"
edition = "2021"
publish = false

[dependencies]
anyhow = "1"
dirs = "*"
libc = "0.2"
reqwest = { version = "0.12", default-features = false, features = ["blocking", "rustls-tls"] }
serde = { version = "1", features = ["derive"] }
serde_json = { version = "1", features = ["preserve_order"] }
url = "2"
uuid = { version = "1", features = ["v4"] }
