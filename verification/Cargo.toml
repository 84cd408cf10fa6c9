[package]
name = "lowtex"
version = "0.1.0"
edition = "2021"
publish = false

[dependencies]
bytemuck = { version = "1", features = ["derive"] }
catppuccin-egui = { version = "5.3", default-features = false, features = ["egui29"] }
egui = { version = "0.29", default-features = false, features = ["default_fonts"] }
egui-wgpu = { version = "0.29", default-features = false }
glam = { version = "0.29", features = ["bytemuck"] }
image = { version = "0.25", default-features = false, features = ["png"] }
log = "0.4"
pollster = "0.4"
rayon = "1"
wgpu = { version = "22", default-features = false, features = ["wgsl"] }
winit = { version = "0.30", default-features = false, features = ["x11", "rwh_06"] }
