[package]
name = "warpview"
version = "0.1.0"
edition = "2021"
publish = false

[dependencies]
image = { version = "0.25", default-features = false, features = ["gif", "png", "jpeg", "webp"] }
kamadak-exif = "0.6"
libheif-rs = "*"
anyhow = "1"
winit = "0.30"
wgpu = "*"
pollster = "0.4"
bytemuck = "1"
directories = "*"
serde = { version = "1", features = ["derive"] }
toml = "*"
