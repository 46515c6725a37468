[package]
name = "slickcmd"
version = "0.1.0"
edition = "2021"
publish = false

[dependencies]
bc = "*"
faster-hex = "*"
time = "*"
