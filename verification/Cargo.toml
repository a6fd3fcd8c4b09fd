[package]
name = "yolol_runner"
version = "0.1.0"
edition = "2021"
publish = false

[dependencies]
yolol-devices = "*"
walkdir = "2.5.0"
core_affinity = "0.8.3"
mimalloc = { version = "0.1.52", default-features = false }
