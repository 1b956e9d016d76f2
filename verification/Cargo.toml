[package]
name = "terminologyyyy"
version = "0.1.0"
edition = "2021"
publish = false

[dependencies]
glyphon = "0.7"
pollster = "0.4"
portable-pty = "0.8"
wgpu = "23"
winit = "0.30"
