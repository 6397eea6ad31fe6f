[package]
name = "cadmium"
version = "0.1.0"
edition = "2021"
publish = false

[dependencies]
sha2 = "0.10"
itertools = "0.12"
serde = { version = "1", features = ["derive"] }
serde_json = "1"
wasm-bindgen = "0.2"
tsify = "0.4"
console_error_panic_hook = "0.1"
