[package]
name = "printa_ble"
version = "0.1.0"
edition = "2021"
publish = false

[dependencies]
pulldown-cmark = { version = "=0.12.2", default-features = false }
barcoders = { version = "=2.0.0", default-features = false }
image = { version = "=0.25.10", default-features = false, features = ["png", "jpeg"] }
qrcode = { version = "0.14", default-features = false }
flate2 = "=1.1.10"
anyhow = "1"
clap = { version = "4", features = ["derive"] }
serde = { version = "1", features = ["derive"] }
serde_json = "1"
toml = "0.8"
dirs = "5"
tokio = { version = "1", features = ["rt-multi-thread", "macros", "time", "net", "signal", "sync"] }
futures = "0.3"
btleplug = "0.11"
axum = { version = "0.8", features = ["multipart"] }
reqwest = { version = "0.12", default-features = false, features = ["rustls-tls"] }
chromiumoxide = { version = "0.7", default-features = false, features = ["tokio-runtime"] }
rand = "0.9"
tracing = "0.1"
tracing-subscriber = { version = "0.3", features = ["env-filter"] }
wasm-bindgen = "0.2"
serde-wasm-bindgen = "0.6"
thiserror = "2"
fontdue = "0.9"
