[package]
name = "feoh"
version = "0.1.0"
edition = "2021"
publish = false

[dependencies]
anyhow = "1"
glam = "*"
image = { version = "*", default-features = false, features = ["png"] }
indicatif = "0.17"
rand = { version = "0.8", features = ["small_rng"] }
rayon = "1"
