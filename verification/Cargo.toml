[package]
name = "audio_forwarder"
version = "0.1.0"
edition = "2021"
publish = false

[dependencies]
anyhow = "1"
clap = { version = "4", features = ["derive"] }
cpal = "*"
dasp_sample = "*"
env_logger = "*"
flume = "*"
futures = "0.3"
log = "0.4"
metrics = "*"
metrics-exporter-tcp = "*"
rmp-serde = "*"
serde = { version = "1", features = ["derive"] }
tokio = { version = "1", features = ["full"] }
tokio-util = { version = "0.7", features = ["codec"] }
