[package]
name = "softrender"
version = "0.1.0"
edition = "2021"
publish = false

[dependencies]
bytemuck = "1"
softbuffer = "0.4"
winit = "0.30"
