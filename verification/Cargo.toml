[package]
name = "sdr-bullet"
version = "0.1.0"
edition = "2021"
publish = false

[dependencies]
js-sys = "0.3"
nusb = "0.2"
wasm-bindgen = "0.2.100"
wasm-bindgen-futures = "0.4"
