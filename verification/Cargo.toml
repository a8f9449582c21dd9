[package]
name = "static_config"
version = "0.1.0"
edition = "2021"
publish = false

[dependencies]
anyhow = "1"
clap = { version = "4", features = ["derive"] }
extism-pdk = "*"
indexmap = "2"
java-properties = "*"
serde = { version = "1", features = ["derive"] }
serde_json = "1"
serde_with = { version = "3", features = ["base64"] }
wac-graph = "*"
wac-parser = "*"
walrus = "*"
wasm-metadata = "*"
wasmparser = "*"
wat = "1"
wit-bindgen = "*"
wit-component = "*"
wit-parser = "*"
