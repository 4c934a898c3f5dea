[package]
name = "kannaka_crystal"
version = "0.1.0"
edition = "2021"
publish = false

[dependencies]
blake3 = { version = "1", features = ["pure"] }
uuid = { version = "1", features = ["v4", "serde"] }
chrono = { version = "0.4", features = ["serde"] }
serde = { version = "1", features = ["derive"] }
serde_json = "1"
rand = "0.8"
rand_chacha = "0.3"
clap = { version = "4", features = ["derive"] }
tiny_http = "0.12"
dirs = "5"
ureq = { version = "3", features = ["json"] }
thiserror = "2"
tokio = { version = "1", features = ["rt-multi-thread", "time", "macros"] }
async-nats = "*"
futures = "0.3"
wasm-bindgen = "0.2"
