[package]
name = "rusty_render"
version = "0.1.0"
edition = "2021"
publish = false

[dependencies]
ktx2 = "0.3.0"
glam = "0.25"
wgpu = "0.19"
image = { version = "0.24", default-features = false, features = ["png"] }
