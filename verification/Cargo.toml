[package]
name = "ray_marching_csg"
version = "0.1.0"
edition = "2021"
publish = false

[dependencies]
bytemuck = "1"
encase = { version = "0.7", features = ["nalgebra"] }
nalgebra = "0.32"
