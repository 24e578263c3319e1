[package]
name = "save_merge"
version = "0.1.0"
edition = "2021"
publish = false

[dependencies]
recordkeeper = "=0.1.0"
strum = "=0.28.0"
