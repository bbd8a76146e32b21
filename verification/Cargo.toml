[package]
name = "b3d2glb"
version = "0.1.0"
edition = "2021"
publish = false

[dependencies]
byteorder = "1"
image = { version = "0.25", default-features = false, features = ["png", "bmp", "jpeg", "tga"] }
serde_json = "1"
thiserror = "1"
