[package]
name = "fourier"
version = "0.1.0"
edition = "2021"
publish = false

[dependencies]
micromath = "2"
num-complex = "0.4"

[dev-dependencies]
rand = "0.8"
