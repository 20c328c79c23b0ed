[package]
name = "balala"
version = "0.1.0"
edition = "2021"
publish = false

[dependencies]
winit = "0.28"
glutin = "0.30"
glutin-winit = "0.3"
glow = "0.12"
raw-window-handle = "0.5"
image = "0.24"
bytemuck = "1"
nalgebra = "0.32"
