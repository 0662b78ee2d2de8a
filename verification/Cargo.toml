[package]
name = "http_server"
version = "0.1.0"
edition = "2021"
publish = false

[dependencies]
anyhow = "1"
bytes = "1"
nom = "7"
tokio = { version = "1", features = ["net", "io-util", "rt-multi-thread"] }
