[package]
name = "h3_world_geometry_generator"
version = "0.1.0"
edition = "2021"
publish = false

[dependencies]
h3o = "*"
rand = "*"

[dev-dependencies]
serde_json = "*"
