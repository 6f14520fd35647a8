[package]
name = "nyx_space"
version = "0.1.0"
edition = "2021"
publish = false

[dependencies]
hifitime = "3.8"
num = "0.4"
rand = "0.8"
serde = { version = "1", features = ["derive"] }
serde_yaml = "0.9"
nalgebra = "0.32"
pyo3 = "0.18"
