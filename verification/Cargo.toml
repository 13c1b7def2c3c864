[package]
name = "forest_traversal"
version = "0.1.0"
edition = "2021"
publish = false

[dependencies]
enum_dispatch = "0.3"
itertools = "0.13"
ndarray = "0.16"
num-traits = "0.2"
numpy = "0.22"
pyo3 = { version = "0.22", features = ["extension-module", "abi3-py38"] }
rayon = "1.10"
serde = { version = "1", features = ["derive"] }
serde-pickle = "1.1"
