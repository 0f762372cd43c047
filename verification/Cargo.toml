[package]
name = "ansi_renderer"
version = "0.1.0"
edition = "2021"
publish = false

[dependencies]
ansi_term = "0.12"
pulldown-cmark = { version = "*", default-features = false }
syntect = { version = "*", default-features = false, features = ["default-fancy"] }
unicode-segmentation = "1"
unicode-width = "*"
