[package]
name = "caduceus"
version = "0.1.0"
edition = "2021"
publish = false

[dependencies]
ascii = "*"
byteorder = "1"
rustc-serialize = "0.3"
time = "0.1"
