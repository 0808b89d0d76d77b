[package]
name = "comic_reader"
version = "0.1.0"
edition = "2021"
publish = false

[dependencies]
bytes = "1"
crossbeam-channel = "0.5"
eframe = { version = "*", default-features = false, features = ["glow", "default_fonts", "x11"] }
image = { version = "*", default-features = false, features = ["png", "jpeg", "gif", "webp", "bmp", "tiff"] }
natord = "1"
walkdir = "2"
zip = { version = "*", default-features = false, features = ["deflate"] }
