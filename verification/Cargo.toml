[package]
name = "chat_sync"
version = "0.1.0"
edition = "2021"
publish = false

[dependencies]
web-sys = { version = "*", features = ["Window", "Storage"] }
uuid = { version = "*", features = ["v4"] }
gloo = "*"
gloo-net = "*"
futures = "*"
wasm-bindgen-futures = "*"
log = "*"
serde = { version = "*", features = ["derive"] }
serde_json = "*"
