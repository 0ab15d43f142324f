[package]
name = "rust_console_game"
version = "0.1.0"
edition = "2021"
publish = false

[dependencies]
anyhow = "1.0"
crossterm = "0.22"
lazy_static = "1.4"
log = "0.4"
rand = "0.8"
simplelog = "0.12"
