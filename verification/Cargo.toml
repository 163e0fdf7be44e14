[package]
name = "p12crack"
version = "0.1.0"
edition = "2021"
publish = false

[dependencies]
openssl = "*"
cudarc = "*"
clap = { version = "*", features = ["derive"] }
anyhow = "*"
