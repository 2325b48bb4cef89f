[package]
name = "rustic"
version = "0.1.0"
edition = "2021"
publish = false

[dependencies]
filenamify = "*"
zip = { version = "*", default-features = false, features = ["deflate"] }
