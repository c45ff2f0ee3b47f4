[package]
name = "klapit"
version = "0.1.0"
edition = "2021"
publish = false

[dependencies]
comfy = { version = "0.4.0", default-features = false }
