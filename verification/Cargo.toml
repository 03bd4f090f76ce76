[package]
name = "rgine"
version = "0.1.0"
edition = "2021"
publish = false

[dependencies]
cgmath = "0.18"
colored = "2"
log = "0.4"
num-traits = "0.2"
pollster = "0.3"
wgpu = "0.20"
winit = "0.30"
