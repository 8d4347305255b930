[package]
name = "omegawhisper"
version = "0.1.0"
edition = "2021"
publish = false

[dependencies]
serde = { version = "1", features = ["derive"] }
serde_json = "1"
chrono = "0.4"
dirs = "6"
libc = "0.2"
rustfft = "6"
cpal = "0.15"
tokio = { version = "1", features = ["rt"] }
