[package]
name = "oparl-validator-rs"
version = "0.1.0"
edition = "2021"
publish = false

[dependencies]
anyhow = "1"
clap = { version = "4", features = ["derive"] }
console_error_panic_hook = "0.1"
futures = "0.3"
indicatif = "0.17"
parking_lot = "0.12"
rayon = "1"
reqwest = "0.11"
serde = { version = "1", features = ["derive"] }
serde_json = "1"
serde-wasm-bindgen = "0.6"
serde_yaml = "0.9"
slug = "0.1"
tokio = { version = "1", features = ["rt-multi-thread", "macros", "sync", "time"] }
wasm-bindgen = "0.2"
web-sys = { version = "0.3", features = ["console", "DomException", "MessageChannel", "MessagePort", "Storage", "Window"] }
