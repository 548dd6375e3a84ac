[package]
name = "whisper_plus"
version = "0.1.0"
edition = "2021"
publish = false

[dependencies]
hound = "=3.5.1"
serde = { version = "=1.0.229", features = ["derive"] }
serde_json = "=1.0.154"
whisper-rs = "=0.16.0"
cpal = "=0.18.2"
rodio = { version = "=0.23.0", default-features = false, features = ["playback", "wav"] }
enigo = "=0.6.1"
reqwest = { version = "=0.13.5", default-features = false, features = ["json", "multipart", "stream"] }
futures-util = "=0.3.34"
sysinfo = "=0.39.6"
open = "=5.4.5"
