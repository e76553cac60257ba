[package]
name = "gba"
version = "0.1.0"
edition = "2021"
publish = false

[dependencies]
bincode = { version = "2", features = ["derive"] }
wasm-bindgen = "0.2"
