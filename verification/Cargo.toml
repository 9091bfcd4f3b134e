[package]
name = "fast-yaml"
version = "0.1.0"
edition = "2021"
publish = false

[dependencies]
yaml-rust2 = "*"
wasm-bindgen = "*"
js-sys = "*"
serde_json = "*"
console_error_panic_hook = "*"
