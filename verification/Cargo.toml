[package]
name = "meta_vote"
version = "0.1.0"
edition = "2021"
publish = false

[dependencies]
serde_json = "1"
serde = { version = "1", features = ["derive"] }
near-sdk = { version = "4.1.1", default-features = false }
