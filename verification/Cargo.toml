[package]
name = "yadoom_rs"
version = "0.1.0"
edition = "2021"
publish = false

[dependencies]
byteorder = "1"
regex = "1"
minifb = "0.27"
