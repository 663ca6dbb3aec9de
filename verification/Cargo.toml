[package]
name = "engine"
version = "0.1.0"
edition = "2021"
publish = false

[dependencies]
gl = "*"
sdl2 = "*"
piston = "*"
piston_window = "*"
piston2d-opengl_graphics = "*"
