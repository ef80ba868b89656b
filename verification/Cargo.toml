[package]
name = "pyd4"
version = "0.1.0"
edition = "2021"
publish = false

[dependencies]
d4 = "=0.2.18"

[dev-dependencies]
tempfile = "=3.27.0"
