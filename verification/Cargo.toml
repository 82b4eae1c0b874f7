[package]
name = "brightness"
version = "0.1.0"
edition = "2021"
publish = false

[dependencies]
rand = "0.4"
image = { version = "*", default-features = false, features = ["png", "jpeg", "gif", "bmp"] }
docopt = "0.7"
rustc-serialize = "0.3"
