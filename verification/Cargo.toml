[package]
name = "keybow"
version = "0.1.0"
edition = "2021"
publish = false

[dependencies]
crossbeam-channel = "0.5"
rgb = "0.8"
rppal = "0.17"
thiserror = "1"
tokio = { version = "1", default-features = false, features = ["sync"] }
