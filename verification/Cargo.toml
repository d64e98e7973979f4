[package]
name = "llmpager"
version = "0.1.0"
edition = "2021"
publish = false

[dependencies]
anyhow = "=1.0.104"
libc = "=0.2.191"
libloading = "=0.8.9"
serde = { version = "=1.0.229", features = ["derive"] }
serde_json = "=1.0.154"
tiny_http = "=0.12.0"
tokenizers = { version = "=0.21.4", default-features = false, features = ["fancy-regex"] }
