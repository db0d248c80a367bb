[package]
name = "text_components"
version = "0.1.0"
edition = "2021"
publish = false

[dependencies]
memchr = "=2.8.3"
smallvec = "=1.16.4"
uuid = "=1.29.0"
serde = { version = "=1.0.229", features = ["derive"] }
databake = { version = "0.1", features = ["derive"] }
