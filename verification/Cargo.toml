[package]
name = "trash"
version = "0.1.0"
edition = "2021"
publish = false

[dependencies]
dyn-fmt = "*"
fnv = "1.0.7"
