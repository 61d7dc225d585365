[package]
name = "pyxelxl"
version = "0.1.0"
edition = "2021"
publish = false

[dependencies]
anyhow = "=1.0.104"
fontdue = "=0.9.5"
mini-moka = "=0.10.3"
ndarray = "=0.17.2"
numpy = "=0.30.0"
palette = "=0.7.7"
pyo3 = { version = "=0.30.1", features = ["extension-module"] }
ttf-parser = { version = "=0.25.1", default-features = false, features = ["opentype-layout", "no-std-float"] }
