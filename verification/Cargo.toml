[package]
name = "babelcomics"
version = "0.1.0"
edition = "2021"
publish = false

[dependencies]
image = { version = "=0.25.10", default-features = false, features = ["jpeg", "png", "gif", "bmp", "webp"] }
serde = { version = "=1.0.229", features = ["derive"] }
serde_json = "=1.0.154"
walkdir = "=2.5.0"
zip = { version = "=2.6.1", default-features = false, features = ["deflate"] }
sevenz-rust = "0.6"
