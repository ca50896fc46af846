[package]
name = "porch_camera"
version = "0.1.0"
edition = "2021"
publish = false

[dependencies]
async-stream = "0.3"
axum = "0.8"
chrono = "0.4"
chrono-tz = "0.10"
clap = { version = "4", features = ["derive"] }
cron = "0.15"
futures = "0.3"
hamming = "0.1"
http = "1"
log = "0.4"
multipart-stream = "0.1"
opencv = { version = "*", default-features = false, features = ["img_hash", "imgcodecs", "imgproc"] }
ort = { version = "2.0.0-rc.10", default-features = false, features = ["load-dynamic", "ndarray", "std"] }
serde = { version = "1", features = ["derive"] }
serde_json = "1"
simplelog = "0.12"
tokio = { version = "1", features = ["fs", "io-util", "macros", "net", "rt-multi-thread", "sync", "time"] }
tower-http = { version = "0.6", features = ["fs"] }
tracing = "0.1"
tracing-chrome = "0.7"
tracing-subscriber = "0.3"
uvc = "*"
