[package]
name = "wah_polyglot"
version = "0.1.0"
edition = "2021"
publish = false

[dependencies]
base64 = "*"
clap = { version = "*", features = ["derive"] }
lithtml = "*"
walkdir = "*"
wasm-encoder = "*"
wasmparser = "*"
zip = { version = "*", default-features = false }
