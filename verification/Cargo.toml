[package]
name = "luna_linker"
version = "0.1.0"
edition = "2021"
publish = false

[dependencies]
reqwest = { version = "*", default-features = false, features = ["blocking"] }
anyhow = "1"
serde = { version = "1", features = ["derive"] }
serde_json = "1"
regex = "1"
base64 = "*"
image = { version = "*", default-features = false, features = ["jpeg", "png", "webp"] }
ab_glyph = "*"
kamadak-exif = "*"
log = "*"
tokio = { version = "1", features = ["rt-multi-thread", "macros", "time"] }
btleplug = "*"
