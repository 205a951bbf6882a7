[package]
name = "matrix_multiplication"
version = "0.1.0"
edition = "2021"
publish = false

[dependencies]
rand = "0.9"
rayon = "1"
tokio = { version = "1", features = ["rt-multi-thread"] }
once_cell = "1"
ocl = "0.19"
