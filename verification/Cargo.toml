[package]
name = "altostratus"
version = "0.1.0"
edition = "2021"
publish = false

[dependencies]
glam = "*"
image = "*"
clap = { version = "4", features = ["derive"] }
crossterm = "*"
