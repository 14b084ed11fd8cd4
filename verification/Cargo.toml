[package]
name = "piet"
version = "0.1.0"
edition = "2021"
publish = false

[dependencies]
num = "0.4"
image = { version = "0.24", default-features = false, features = ["png", "gif", "bmp"] }
structopt = "0.3"
