[package]
name = "liteclaw_core"
version = "0.1.0"
edition = "2021"
publish = false

[dependencies]
uuid = { version = "*", features = ["v4"] }
ureq = { version = "*", default-features = false }

[dev-dependencies]
serde_json = "*"
tempfile = "*"
