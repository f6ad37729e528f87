[package]
name = "pixelops"
version = "0.1.0"
edition = "2021"
publish = false

[dependencies]
image = "0.24"
imageproc = "0.23"
wasm-bindgen = "0.2"
