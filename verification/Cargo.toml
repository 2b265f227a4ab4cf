[package]
name = "rust_playground"
version = "0.1.0"
edition = "2021"
publish = false

[dependencies]
clap = "*"
cpal = "*"
crossbeam = "*"

[dev-dependencies]
time = "*"
