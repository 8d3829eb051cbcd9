[package]
name = "audio_ai"
version = "0.1.0"
edition = "2021"
publish = false

[dependencies]
anyhow = "1"
aubio = "0.2"
cpal = "0.15"
dotenv = "0.15"
hound = "3"
num-traits = "0.2"
reqwest = { version = "0.12", features = ["json"] }
rustfft = "6"
serde = { version = "1", features = ["derive"] }
serde_json = "1"
symphonia = "0.5"
tokio = { version = "1", features = ["macros", "rt-multi-thread"] }
