[package]
name = "wat3rs"
version = "0.1.0"
edition = "2021"
publish = false

[dependencies]
wgpu = "0.20"
winit = "0.30"
futures = "0.3"
bytemuck = "1"
