[package]
name = "soft_ratatui"
version = "0.1.0"
edition = "2021"
publish = false

[dependencies]
bdf-parser = "*"
ratatui = { version = "*", default-features = false }
cosmic-text = "*"
embedded-graphics = "*"
image = { version = "*", default-features = false, features = ["png"] }
