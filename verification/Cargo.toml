[package]
name = "masonry"
version = "0.1.0"
edition = "2021"
publish = false

[dependencies]
gfx-backend-gl = "=0.9.0"
gfx-hal = "=0.9.0"
winit = "=0.25.0"
