[package]
name = "nada_values"
version = "0.1.0"
edition = "2021"
publish = false

[dependencies]
generic-ec = { version = "*", features = ["curve-secp256k1", "curve-ed25519"] }
key-share = "*"
num-bigint = "*"
wasm-bindgen = "*"
js-sys = "*"
serde-wasm-bindgen = "*"
console_error_panic_hook = "*"
