[package]
name = "web_image_meta"
version = "0.1.0"
edition = "2021"
publish = false

[dependencies]
crc32fast = "*"
jpeg-decoder = { version = "*", default-features = false }
jpeg-encoder = "*"
png = "*"

[dev-dependencies]
flate2 = "*"
