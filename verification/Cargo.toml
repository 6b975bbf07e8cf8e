[package]
name = "collision2d"
version = "0.1.0"
edition = "2021"
publish = false

[dependencies]
pixels = "0.2"
winit = "0.24"
winit_input_helper = "0.9"
