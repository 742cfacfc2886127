[package]
name = "decthings_model"
version = "0.1.0"
edition = "2021"
publish = false

[dependencies]
bytes = "*"
futures = "*"
serde = { version = "*", features = ["derive"] }
serde_json = "*"
tokio = { version = "*", features = ["net", "io-util", "sync", "rt-multi-thread", "macros"] }
