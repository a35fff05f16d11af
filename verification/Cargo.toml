[package]
name = "vega68"
version = "0.1.0"
edition = "2021"
publish = false

[dependencies]
m68k = "*"
winit = "0.30"
softbuffer = "0.4"
gilrs = "0.11"
cpal = "0.15"
