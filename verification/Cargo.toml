[package]
name = "triangulum"
version = "0.1.0"
edition = "2021"
publish = false

[dependencies]
anyhow = "1"
bytemuck = { version = "1", features = ["derive"] }
egui = "*"
glam = { version = "*", features = ["bytemuck"] }
png = "*"
rayon = "1"
serde_json = "1"
wgpu = { version = "*", default-features = false, features = ["wgsl"] }
