[package]
name = "runner_link"
version = "0.1.0"
edition = "2021"
publish = false

[dependencies]
bincode = "=1.3.3"
tokio = { version = "=1.54.1", features = ["io-util", "rt"] }
