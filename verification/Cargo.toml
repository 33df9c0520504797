[package]
name = "mandelbrot_set"
version = "0.1.0"
edition = "2021"
publish = false

[dependencies]
num = "*"
bytemuck = "*"
crossbeam = "*"
image = { version = "*", default-features = false, features = ["png"] }
