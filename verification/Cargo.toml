[package]
name = "voxel_bake"
version = "0.1.0"
edition = "2021"
publish = false

[dependencies]
image = "0.24"
json = "0.12"
thiserror = "1"
