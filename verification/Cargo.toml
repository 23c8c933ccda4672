[package]
name = "raycaster"
version = "0.1.0"
edition = "2021"
publish = false

[dependencies]
line_drawing = "1.0"
image = "0.24"
pixels = "0.9"
winit = "0.26"
winit_input_helper = "0.11"
vecmath = "1.0"
log = "0.4"
env_logger = "0.9"
