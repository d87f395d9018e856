[package]
name = "titan_voxel_engine"
version = "0.3.0"
edition = "2021"
publish = false

[dependencies]
anyhow = "1"
bytemuck = { version = "1", features = ["derive"] }
env_logger = { version = "0.11", default-features = false }
glam = "0.25"
image = { version = "0.24", default-features = false, features = ["png"] }
log = "0.4"
mlua = { version = "0.9", features = ["lua54", "vendored"] }
pollster = "0.3"
rayon = "1"
reqwest = { version = "0.12", default-features = false, features = ["blocking", "rustls-tls"] }
