[package]
name = "tract-metal"
version = "0.1.0"
edition = "2021"
publish = false

[dependencies]
tract-core = "*"
tract-gpu = "*"
tract-transformers = "*"
anyhow = "1"
inventory = "*"
objc = "*"
metal = { version = "*", default-features = false }
