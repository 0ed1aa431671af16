[package]
name = "xray"
version = "0.1.0"
edition = "2021"
publish = false

[dependencies]
image = "=0.25.10"
nalgebra = { version = "=0.35.0", features = ["serde-serialize"] }
serde = { version = "=1.0.229", features = ["derive"] }
rayon = "=1.12.0"
crossbeam = "=0.8.5"
