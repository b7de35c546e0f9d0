[package]
name = "hematite"
version = "0.1.0"
edition = "2021"
publish = false

[dependencies]
rand = "*"
image = { version = "*", default-features = false, features = ["png"] }
plotters = { version = "*", default-features = false, features = ["bitmap_backend", "bitmap_encoder"] }
plotters-arrows = "*"
cubecl = { version = "*", default-features = false, features = ["wgpu", "cuda"] }
