[package]
name = "fft_wasm"
version = "0.1.0"
edition = "2021"
publish = false

[dependencies]
num-complex = "*"
wasm-bindgen = "*"
js-sys = "*"
web-sys = { version = "*", features = ["console"] }
