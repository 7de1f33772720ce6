[package]
name = "dynbem_rs"
version = "0.1.0"
edition = "2021"
publish = false

[dependencies]
serde = { version = "=1.0.229", features = ["derive"] }
serde_yaml = "=0.9.34"
aligned-vec = "0.6"
wide = "0.7"
bytemuck = "1"
rayon = "1"
