[package]
name = "xshape"
version = "0.1.0"
edition = "2021"
publish = false

[dependencies]
csv = "1"
xaddr = "*"
encsniff = "*"
clap = { version = "4", features = ["derive"] }
