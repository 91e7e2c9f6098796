[package]
name = "edge_tunnel"
version = "0.1.0"
edition = "2021"
publish = false

[dependencies]
base64 = "=0.22.1"
bytes = "*"
console_error_panic_hook = "*"
futures-util = "*"
pin-project = "*"
tokio = { version = "*", default-features = false, features = ["io-util"] }
wasm-bindgen-futures = "*"
worker = "*"
