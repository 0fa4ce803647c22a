[package]
name = "pls_core"
version = "0.1.0"
edition = "2021"
publish = false

[dependencies]
regex = "1"
serde = { version = "1", features = ["derive"] }
serde_json = "1"
tera = { version = "1", default-features = false }
rusqlite = { version = "0.24", features = ["bundled"] }
clap = "2"
chrono = "0.4"
colored = "2"
lazy_static = "1"
wasm-bindgen = "0.2"
