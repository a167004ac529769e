[package]
name = "prysm"
version = "0.1.0"
edition = "2021"
publish = false

[dependencies]
yuv = "*"
anyhow = "1"
futures = "0.3"
tokio = { version = "1", features = ["rt", "rt-multi-thread", "macros", "sync", "signal", "time"] }
tokio-stream = { version = "0.1", features = ["sync"] }
tokio-util = "0.7"
async-stream = "0.3"
tracing = "0.1"
tracing-subscriber = "0.3"
v4l = "*"
eframe = { version = "*", default-features = false, features = ["glow", "x11", "default_fonts"] }
egui = "*"
