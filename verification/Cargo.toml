[package]
name = "librevideodit"
version = "0.1.0"
edition = "2021"
publish = false

[dependencies]
serde = { version = "1", features = ["derive"] }
serde_json = "1"
lazy_static = "1"
sha2 = "0.10"
hex = "0.4"
kamadak-exif = "*"
walkdir = "2"
