[package]
name = "brush_core"
version = "0.1.0"
edition = "2021"
publish = false

[dependencies]
path-clean = "1"
rand = "0.9"
