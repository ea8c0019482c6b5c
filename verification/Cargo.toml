[package]
name = "tilecore"
version = "0.1.0"
edition = "2021"
publish = false

[dependencies]
ehttp = "*"
futures = "*"
geoconv = "*"
glam = "*"
gltf = "*"
poll-promise = "*"
serde = { version = "*", features = ["derive"] }
serde_json = "*"
