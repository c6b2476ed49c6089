[package]
name = "postal"
version = "0.1.0"
edition = "2021"
publish = false

[dependencies]
axum = { version = "0.8", features = ["multipart"] }
tempfile = "3"
tokio = { version = "1", features = ["net", "rt-multi-thread", "test-util", "time"] }
