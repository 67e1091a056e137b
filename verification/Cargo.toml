[package]
name = "mat"
version = "1.1.0"
edition = "2021"
publish = false

[dependencies]
crossterm = "*"
pulldown-cmark = "*"
syntect = { version = "*", default-features = false, features = ["default-fancy"] }
terminal_size = "*"
unicode-width = "*"
