[package]
name = "thorus_forge"
version = "0.1.0"
edition = "2021"
publish = false

[dependencies]
base64 = "0.22"
webp-animation = "*"
glam = { version = "*", features = ["approx"] }
approx = "*"
crossterm = "*"
png = "*"
