[package]
name = "wasm_decode"
version = "0.1.0"
edition = "2021"
publish = false

[dependencies]
anyhow = "1"
nom = "7.1"
nom-leb128 = "*"
num-traits = "0.2"

[dev-dependencies]
wat = "1"
