[package]
name = "rust_rtsp_server"
version = "0.1.0"
edition = "2021"
publish = false

[dependencies]
chrono = "0.4"
clap = "2"
futures = "0.3"
gstreamer = "0.16"
