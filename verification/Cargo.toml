[package]
name = "sat2d"
version = "0.1.0"
edition = "2021"
publish = false

[dependencies]
console_error_panic_hook = "0.1"
serde = { version = "1", features = ["derive"] }
serde_derive = "1"
serde_json = "1"
wasm-bindgen = { version = "0.2", features = ["serde-serialize"] }
