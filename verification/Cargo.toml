[package]
name = "mdiff"
version = "0.1.0"
edition = "2021"
publish = false

[dependencies]
anyhow = "1"
crossterm = "0.29"
notify = "8"
supports-color = "3"
unicode-width = "0.2"
