[package]
name = "textfmt"
version = "0.1.0"
edition = "2021"
publish = false

[dependencies]
unicode-width = "=0.1.10"
regex = "1"
once_cell = "1"
ansirs = "*"
