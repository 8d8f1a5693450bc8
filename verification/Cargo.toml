[package]
name = "sugarfunge"
version = "0.1.0"
edition = "2021"
publish = false

[dependencies]
parity-scale-codec = "3"
sp-core = { version = "*", default-features = false }
sp-arithmetic = "*"
