[package]
name = "encrypt_file"
version = "0.1.0"
edition = "2021"
publish = false

[dependencies]
chacha20poly1305 = "0.10"
wasm-bindgen = "0.2"
