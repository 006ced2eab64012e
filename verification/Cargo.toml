[package]
name = "shine_rs"
version = "0.1.0"
edition = "2021"
publish = false

[dependencies]
hound = "3.5"
lazy_static = "1.4"
log = "0.4"
serde = { version = "1", features = ["derive"] }
serde_json = "1"
