[package]
name = "voxel_stream"
version = "0.1.0"
edition = "2021"
publish = false

[dependencies]
anyhow = "1"
bytemuck = { version = "1", features = ["derive"] }
glam = "0.28"
image = { version = "0.25", default-features = false, features = ["png"] }
noise = "0.9"
pollster = { version = "0.3", features = ["macro"] }
rayon = "1"
regex = "1"
