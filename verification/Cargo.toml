[package]
name = "latency"
version = "0.1.0"
edition = "2021"
publish = false

[dependencies]
webrtc = "=0.14.0"
tokio = { version = "=1.54.1", features = ["full"] }
bytes = "=1.12.1"
env_logger = "=0.9.3"
log = "=0.4.35"
windows = { version = "=0.39.0", features = ["Win32_Foundation", "Win32_System_Performance"] }
