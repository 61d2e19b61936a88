[package]
name = "newline"
version = "0.1.0"
edition = "2021"
publish = false

[dependencies]
jetscii = "*"
