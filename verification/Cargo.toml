[package]
name = "netto"
version = "0.1.0"
edition = "2021"
publish = false

[dependencies]
actix = "=0.13.5"
actix-files = "=0.7.2"
actix-web = { version = "=4.18.1", default-features = false, features = ["macros", "ws"] }
actix-web-actors = "=4.3.1"
anyhow = "=1.0.104"
clap = { version = "=4.6.7", features = ["derive"] }
console_error_panic_hook = "=0.1.7"
cursive = "=0.21.1"
gloo-file = "=0.4.0"
libbpf-rs = "=0.27.2"
libc = "=0.2.191"
perf-event-open-sys = "=7.1.0"
plotters = { version = "=0.3.7", default-features = false, features = ["svg_backend", "full_palette"] }
powercap = "=0.3.5"
prometheus = { version = "=0.14.0", default-features = false }
rmp-serde = "=1.3.1"
serde = { version = "=1.0.229", features = ["derive"] }
tokio = { version = "=1.54.1", features = ["sync", "signal", "macros", "rt"] }
wasm-bindgen = "=0.2.129"
web-sys = { version = "=0.3.106", features = ["Blob", "Document", "Element", "EventTarget", "Location", "MessageEvent", "Node", "WebSocket", "Window", "console"] }
