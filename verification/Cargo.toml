[package]
name = "scoring"
version = "0.1.0"
edition = "2021"
publish = false

[dependencies]
ndarray = "*"
ndarray-conv = "*"
pyo3 = { version = "*", features = ["extension-module"] }
