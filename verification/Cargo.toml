[package]
name = "jddf"
version = "0.1.0"
edition = "2021"
publish = false

[dependencies]
failure = { version = "0.1", default-features = false, features = ["std"] }
serde = { version = "1", features = ["derive"] }
serde_json = "1"
