[package]
name = "matrix_waterfall"
version = "0.1.0"
edition = "2021"
publish = false

[dependencies]
anyhow = "1"
crossterm = "*"
rand = "0.8"
