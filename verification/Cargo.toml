[package]
name = "laser_cam"
version = "0.1.0"
edition = "2021"
publish = false

[dependencies]
indexmap = "*"
dxf = "*"
ron = "*"
serde = { version = "*", features = ["derive"] }
directories = "*"
time = { version = "*", features = ["local-offset"] }
