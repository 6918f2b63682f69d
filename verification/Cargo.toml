[package]
name = "rustle_core"
version = "0.1.0"
edition = "2021"
publish = false

[dependencies]
ndarray = "*"
numpy = "*"
pyo3 = "*"
realfft = "*"
