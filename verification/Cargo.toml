[package]
name = "particle_sim"
version = "0.1.0"
edition = "2021"
publish = false

[dependencies]
console_error_panic_hook = "0.1"
console_log = "1"
env_logger = "0.11"
error-iter = "0.4"
glam = "*"
log = "0.4"
pixels = "*"
pollster = "*"
rand = "0.8"
wasm-bindgen = "0.2"
wasm-bindgen-futures = "0.4"
web-sys = { version = "0.3", features = ["Document", "Element", "Performance", "Window"] }
winit = "0.29"
winit_input_helper = "0.16"
