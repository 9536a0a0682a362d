[package]
name = "owr"
version = "0.1.0"
edition = "2021"
publish = false

[dependencies]
fastrand = "*"
float = "*"
image = { version = "*", default-features = false, features = ["png", "jpeg"] }
rayon = "*"
vecmath = "*"
