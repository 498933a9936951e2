[package]
name = "blaze_face"
version = "0.1.0"
edition = "2021"
publish = false

[dependencies]
anyhow = "1"
candle-core = "*"
candle-nn = "*"
image = { version = "*", default-features = false, features = ["png", "jpeg"] }
