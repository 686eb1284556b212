[package]
name = "mcrs"
version = "0.1.0"
edition = "2021"
publish = false

[dependencies]
noise = "0.8"
lerp = "0.5"
