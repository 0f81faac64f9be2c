[package]
name = "yhwh"
version = "0.1.0"
edition = "2021"
publish = false

[dependencies]
cgmath = "0.18"
gltf = "1.4"
