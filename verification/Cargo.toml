[package]
name = "graphql_schema_parser"
version = "0.1.0"
edition = "2021"
publish = false

[dependencies]
apollo-parser = "0.2"
fancy-regex = "*"
rayon = "1"
serde = { version = "1", features = ["derive"] }
serde_json = "1"
wasm-bindgen = { version = "0.2", features = ["serde-serialize"] }
web-sys = { version = "0.3", features = ["console"] }
console_error_panic_hook = "0.1"
