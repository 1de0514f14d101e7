[package]
name = "sculpt-lite"
version = "0.1.0"
edition = "2021"
publish = false

[dependencies]
bytemuck = { version = "1", features = ["derive"] }
eframe = { version = "*", default-features = false, features = ["wgpu", "default_fonts", "x11"] }
egui-wgpu = { version = "*" }
env_logger = "0.11"
glam = "*"
hashbrown = "*"
manifold-rust = "*"
rfd = "*"
smallvec = "1"
stl_io = "*"
thiserror = "2"
