[package]
name = "space_shooter"
version = "0.1.0"
edition = "2021"
publish = false

[dependencies]
instant = "0.1"
cgmath = "0.18"
rand = "0.8"
winit = "0.30"
