[package]
name = "crow"
version = "0.1.0"
edition = "2021"
publish = false

[dependencies]
markdown = "=1.0.0"
mdast_util_to_markdown = "=0.0.2"
sha2 = "=0.10.9"
base64 = "=0.22.1"
similar = "=2.7.0"
evalexpr = "=12.0.3"
indexmap = "2"
serde = { version = "=1.0.229", features = ["derive"] }
serde_json = "=1.0.154"
clap = { version = "=4.6.7", features = ["derive"] }
reqwest = { version = "=0.12.28", default-features = false, features = ["blocking", "json", "rustls-tls"] }
jsonwebtoken = "=9.3.1"
console = "=0.15.11"
dialoguer = "=0.11.0"
