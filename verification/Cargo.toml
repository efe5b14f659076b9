[package]
name = "subnet_lifecycle"
version = "0.1.0"
edition = "2021"
publish = false

[dependencies]
frame-support = "*"
frame-system = "*"
log = "*"
scale-info = "*"

[dev-dependencies]
substrate-fixed = "*"
