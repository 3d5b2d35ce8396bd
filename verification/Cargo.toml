[package]
name = "video_saver"
version = "0.1.0"
edition = "2021"
publish = false

[dependencies]
cocoa = "0.26"
reqwest = "0.12"
tokio = { version = "1", features = ["fs"] }
