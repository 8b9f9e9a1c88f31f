[package]
name = "hydroperx_path"
version = "0.1.0"
edition = "2021"
publish = false

[dev-dependencies]
lazy-regex = "=3.6.2"
