[package]
name = "kristall"
version = "0.1.0"
edition = "2021"
publish = false

[dependencies]
cgmath = "0.17"
rand_core = { version = "0.5", features = ["getrandom"] }
winit = "0.22"
log = "0.4"
env_logger = "0.7"
