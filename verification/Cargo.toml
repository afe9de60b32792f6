[package]
name = "image_processor"
version = "0.1.0"
edition = "2021"
publish = false

[dependencies]
image = { version = "*", default-features = false, features = ["png"] }
rayon = "*"
snafu = "*"
