[package]
name = "parakeet-stt"
version = "0.1.0"
edition = "2021"
publish = false

[dependencies]
clipboard = "0.5"
cpal = "0.15"
enigo = "0.2"
rodio = "0.19"
serde = { version = "1", features = ["derive"] }
serde_json = "1"
tokio = { version = "1", features = ["sync"] }
tracing = "0.1"
tracing-subscriber = "0.3"
