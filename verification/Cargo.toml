[package]
name = "botox"
version = "0.1.0"
edition = "2021"
publish = false

[dependencies]
anyhow = "1"
chrono = "0.4"
futures = "0.3"
libpulse-binding = "2"
libpulse-simple-binding = "2"
msedge-tts = "*"
rand = "0.8"
rodio = { version = "0.20", default-features = false, features = ["symphonia-mp3"] }
serde = { version = "1", features = ["derive"] }
serde_json = "1"
tokio = { version = "1", features = ["rt-multi-thread", "macros", "sync", "time", "signal"] }
tokio-tungstenite = { version = "*", features = ["native-tls"] }
toml = "*"
