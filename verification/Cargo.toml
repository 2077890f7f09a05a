[package]
name = "twitch_notify"
version = "0.1.0"
edition = "2021"
publish = false

[dependencies]
json = "0.12"
chrono = "0.4"
dotenv = "0.15"
reqwest = "*"
tokio = { version = "1", features = ["full"] }
tts = "*"
