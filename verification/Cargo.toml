[package]
name = "ank_kernel"
version = "0.1.0"
edition = "2021"
publish = false

[dependencies]
serde = { version = "=1.0.229", features = ["derive"] }
serde_json = "=1.0.154"
hmac = "=0.12.1"
sha2 = "=0.10.9"
base64 = "=0.22.1"
uuid = { version = "=1.29.0", features = ["v4"] }
chrono = { version = "=0.4.45", features = ["serde"] }
reqwest = { version = "=0.12.28", default-features = false }
tokio = { version = "=1.54.1", features = ["full"] }
rusqlite = { version = "=0.41.1", features = ["bundled"] }
anyhow = "=1.0.104"
thiserror = "=2.0.21"
tracing = "=0.1.44"
tracing-subscriber = "=0.3.23"
wasmtime = "=45.0.3"
wasmtime-wasi = "=45.0.3"
webrtc-vad = "=0.4.0"
