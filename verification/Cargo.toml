[package]
name = "voxel_mesh"
version = "0.1.0"
edition = "2021"
publish = false

[dependencies]
fastnoise-lite = "*"
gl = "*"
glfw = "*"
image = "*"
ultraviolet = "*"
