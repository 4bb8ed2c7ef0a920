[package]
name = "variantplaner_rs"
version = "0.1.0"
edition = "2021"
publish = false

[dependencies]
ahash = "0.8"
polars-core = "*"
pyo3-polars = "*"
