[package]
name = "num_rust"
version = "0.1.0"
edition = "2021"
publish = false

[dependencies]
rand = "0.3"
rayon = "*"
num_cpus = "*"
matrixmultiply = "*"
