[package]
name = "clipkeep"
version = "0.1.0"
edition = "2021"
publish = false

[dependencies]
sha2 = "*"
hex = "*"
chrono = "*"
arboard = "*"

[dependencies.image]
version = "*"
default-features = false
features = ["png"]
