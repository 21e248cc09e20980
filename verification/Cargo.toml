[package]
name = "eighty_six"
version = "0.1.0"
edition = "2021"
publish = false

[dependencies]
blake3 = { version = "*", features = ["pure"] }
dashmap = "*"
uuid = { version = "*", features = ["v4", "serde"] }
serde = { version = "*", features = ["derive"] }
serde_json = "*"
chrono = { version = "*", features = ["serde"] }
sqlx = { version = "*", default-features = false, features = ["macros", "chrono", "uuid", "json"] }
worker = "*"
wasm-bindgen = "*"
web-sys = { version = "*", features = ["Window", "Performance"] }
serde-wasm-bindgen = "*"
console_error_panic_hook = "*"
wee_alloc = "*"
