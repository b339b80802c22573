[package]
name = "proxy_elev"
version = "0.1.0"
edition = "2021"
publish = false

[dependencies]
sha2 = "=0.11.1"
reqwest = { version = "=0.13.5", default-features = false }
unic-langid = "=0.9.6"
serde = { version = "=1.0.229", features = ["derive"] }
serde_json = "=1.0.154"
ron = "=0.12.3"
anyhow = "=1.0.104"
regex = "1"
nucleo-matcher = "0.3"
