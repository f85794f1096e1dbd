[package]
name = "multi_account"
version = "0.1.0"
edition = "2021"
publish = false

[dependencies]
parity-scale-codec = "*"
serde = { version = "*", features = ["derive"] }
sp-io = "*"
