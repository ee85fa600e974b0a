[package]
name = "aphelion"
version = "0.1.0"
edition = "2021"
publish = false

[dependencies]
anyhow = "1"
bytemuck = { version = "1", features = ["derive"] }
egui = "*"
egui-wgpu = "*"
egui-winit = "*"
env_logger = "*"
glam = "*"
log = "0.4"
pollster = "*"
wgpu = "*"
winit = "*"
