[package]
name = "qdither"
version = "0.1.0"
edition = "2021"
publish = false

[dependencies]
rand = "*"
clap = "*"
image = { version = "*", default-features = false, features = ["png", "jpeg"] }
macroquad = "*"
