[package]
name = "declutter"
version = "0.1.0"
edition = "2021"
publish = false

[dependencies]
parse-size = "*"
yaml-rust = "*"
