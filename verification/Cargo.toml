[package]
name = "kitties_erc20"
version = "0.1.0"
edition = "2021"
publish = false

[dependencies]
parity-scale-codec = { version = "=3.7.5", features = ["derive"] }
scale-info = { version = "=2.11.6", features = ["derive"] }
sp-io = "=49.0.0"
