[package]
name = "prism-btc"
version = "0.1.0"
edition = "2021"
publish = false

[dependencies]
anyhow = "1"
bitcoin = "0.32"
bitcoincore-rpc = "0.19"
clap = { version = "4", features = ["derive"] }
wasm-bindgen = "0.2"
uor-foundation = { version = "0.5.2", default-features = false }
uor-foundation-sdk = { version = "0.5.2", default-features = false }
uor-addr = { version = "0.2.0", default-features = false }
