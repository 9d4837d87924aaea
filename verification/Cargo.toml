[package]
name = "mobius_life"
version = "0.1.0"
edition = "2021"
publish = false

[dependencies]
bytemuck = { version = "1.25.2", features = ["derive"] }
wasm-bindgen = "0.2.130"
web-sys = { version = "0.3.107", features = ["KeyboardEvent"] }
console_error_panic_hook = "0.1.7"
