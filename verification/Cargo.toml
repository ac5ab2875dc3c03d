[package]
name = "pcd68_display"
version = "0.1.0"
edition = "2021"
publish = false

[dependencies]
ndarray = "0.15"
log = "0.4"
env_logger = "0.9"
pollster = "0.2"
pixels = "0.10"
winit = "0.27"
winit_input_helper = "0.13"
console_error_panic_hook = "0.1"
console_log = "0.2"
wasm-bindgen = "0.2"
wasm-bindgen-futures = "0.4"
web-sys = { version = "0.3", features = ["Window", "Document", "Element", "HtmlElement", "Event", "EventTarget"] }
