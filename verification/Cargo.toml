[package]
name = "html_and_tar"
version = "0.1.0"
edition = "2021"
publish = false

[dependencies]
base64 = "=0.23.1"
lithtml = "=0.8.0"
clap = { version = "*", features = ["derive"] }
serde = { version = "*", features = ["derive"] }
toml = "*"
tempfile = "*"
walkdir = "*"
wasm-encoder = "*"
wasmparser = "*"
