[package]
name = "brush"
version = "0.1.0"
edition = "2021"
publish = false

[dependencies]
anyhow = "=1.0.104"
candle-core = { version = "=0.11.1", default-features = false }
candle-nn = { version = "=0.11.1", default-features = false }
clap = { version = "=4.6.7", features = ["derive"] }
egui = "=0.37.0"
env_logger = { version = "=0.11.11", default-features = false }
ffmpeg-sidecar = { version = "=2.7.0", default-features = false }
glam = { version = "=0.30.10", features = ["serde"] }
hf-hub = { version = "=0.4.3", default-features = false, features = ["ureq"] }
humantime = "=2.4.0"
image = { version = "=0.25.10", default-features = false, features = ["jpeg", "png"] }
indicatif = "=0.18.6"
indicatif-log-bridge = "=0.2.3"
log = "=0.4.35"
nalgebra = { version = "=0.35.0", default-features = false, features = ["std"] }
rand = "=0.9.5"
serde = { version = "=1.0.229", features = ["derive"] }
serde_json = "=1.0.154"
thiserror = "=2.0.21"
tiff = { version = "=0.10.3", default-features = false, features = ["deflate", "lzw"] }
tokio = { version = "=1.54.1", features = ["fs", "io-util", "macros", "rt-multi-thread", "sync"] }
tracing = "=0.1.44"
web-time = "=1.1.0"
