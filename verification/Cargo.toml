[package]
name = "bit"
version = "0.2.0"
edition = "2021"
publish = false

[dependencies]
serde = { version = "1", features = ["derive"] }
serde_json = "=1.0.154"
ureq = { version = "=2.12.1", features = ["json"] }
libc = "0.2"
socket2 = "0.5"
async-trait = "0.1"
tokio = { version = "1", features = ["net", "io-util", "time", "sync", "rt"] }
reqwest = { version = "=0.13.5", default-features = false }
rmcp = { version = "=3.8.0", default-features = false, features = ["client", "auth", "transport-streamable-http-client-reqwest"] }
cpal = "=0.15.3"
transcribe-rs = { version = "=0.3.12", features = ["onnx", "whisper-cpp"] }
