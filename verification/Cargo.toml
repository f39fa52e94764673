[package]
name = "async_stream_connection"
version = "1.0.1"
edition = "2021"
publish = false

[dependencies]
serde = "1"
tokio = { version = "1", features = ["net"] }

[dev-dependencies]
tokio = { version = "1", features = ["net", "rt", "io-util"] }
