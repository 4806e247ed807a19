[package]
name = "rl_matting"
version = "0.1.0"
edition = "2021"
publish = false

[dependencies]
base64 = "0.22"
image = "0.25"
imageproc = "0.25"
ndarray = "0.17"
ort = "=2.0.0-rc.12"
rayon = "1"
serde = { version = "1", features = ["derive"] }
