[package]
name = "minigit"
version = "0.1.0"
edition = "2021"
publish = false

[dependencies]
flate2 = "1"
hex = "0.4"
sha1 = "0.10"
