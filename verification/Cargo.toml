[package]
name = "versatiles"
version = "0.1.0"
edition = "2021"
publish = false

[dependencies]
brotli = "*"
flate2 = "*"
tar = "*"

[dependencies.image]
version = "*"
default-features = false
features = ["png", "jpeg", "webp"]
