[package]
name = "mqtt_broker"
version = "0.1.0"
edition = "2021"
publish = false

[dependencies]
bytes = "=1.12.1"
regex = "=1.13.1"
ringbuf = "0.4"
anyhow = "=1.0.104"
async-trait = "=0.1.92"
axum = "=0.8.9"
hound = "=3.5.1"
reqwest = { version = "=0.13.5", default-features = false, features = ["json"] }
serde = { version = "=1.0.229", features = ["derive"] }
serde_json = "=1.0.154"
serde_yaml = "=0.9.34"
tokio = { version = "=1.54.1", features = ["full"] }
tracing = "=0.1.44"
tracing-subscriber = { version = "=0.3.23", features = ["env-filter"] }
cpal = "0.15"
sherpa-onnx = "=2.0.1"
