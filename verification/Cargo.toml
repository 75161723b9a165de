[package]
name = "spottedcat"
version = "0.1.0"
edition = "2021"
publish = false

[dependencies]
anyhow = "1"
winit = "0.30"
