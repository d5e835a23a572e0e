[package]
name = "game2048"
version = "0.1.0"
edition = "2021"
publish = false

[dependencies]
rand = "0.8"
serde = { version = "1", features = ["derive"] }
yew = { version = "0.20", features = ["csr"] }
yewdux = "0.9"
gloo = "0.8"
gloo-storage = "0.2"
web-sys = { version = "0.3", features = ["KeyboardEvent", "Window", "Location", "EventTarget"] }
wasm-bindgen = "0.2"
log = "0.4"
wasm-logger = "0.2"
console = "0.15"
termion = "2"
wee_alloc = "0.4"
