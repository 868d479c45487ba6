[package]
name = "voxel_core"
version = "0.1.0"
edition = "2021"
publish = false

[dependencies]
num = "0.2"
nalgebra = "*"
glutin = "0.29"
serde = { version = "1", features = ["derive"] }
