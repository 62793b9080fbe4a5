[package]
name = "codex_web_client"
version = "0.1.0"
edition = "2021"
publish = false

[dependencies]
serde = { version = "1", features = ["derive"] }
serde_json = "1"
base64 = "0.22"
sha1 = "0.10"
getrandom = "0.3"
thiserror = "2"
tracing = "0.1"
tokio = { version = "1", default-features = false, features = ["io-util"] }
wasm-bindgen = "0.2"
iroh = { version = "*", default-features = false }
