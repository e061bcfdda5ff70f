[package]
name = "kanono"
version = "0.1.0"
edition = "2021"
publish = false

[dependencies]
cgmath = "0.18"
tokio = { version = "1", features = ["sync", "rt-multi-thread", "macros", "time"] }
warp = "0.3"
futures-util = "0.3"
tokio-stream = "0.1"
rand = "0.8"
