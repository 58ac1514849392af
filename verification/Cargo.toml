[package]
name = "referee"
version = "0.1.0"
edition = "2021"
publish = false

[dependencies]
rand = "0.8.5"
rand_chacha = "0.3.1"
serde = { version = "1", features = ["derive"] }
serde_json = "1"
