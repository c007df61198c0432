[package]
name = "video_gallery"
version = "0.1.0"
edition = "2021"
publish = false

[dependencies]
openh264 = "=0.9.9"
mp4 = "=0.14.0"
swdir = "=0.11.3"
serde = { version = "=1.0.229", features = ["derive"] }
app-json-settings = "=2.7.0"
anyhow = "=1.0.104"
iced = { version = "=0.14.0", default-features = false, features = ["tiny-skia", "image", "tokio", "x11"] }
tokio = { version = "1", features = ["fs"] }
image = { version = "=0.25.10", default-features = false, features = ["png", "jpeg"] }
candle-core = "=0.9.2"
candle-nn = "=0.9.2"
candle-transformers = "=0.9.2"
