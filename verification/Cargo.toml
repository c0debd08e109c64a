[package]
name = "raytrace"
version = "0.1.0"
edition = "2021"
publish = false

[dependencies]
rand = "0.8"
image = "0.24"
crossbeam = "0.8"
log = "0.4"
pretty_env_logger = "0.5"
