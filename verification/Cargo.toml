[package]
name = "sfx"
version = "0.1.0"
edition = "2021"
publish = false

[dependencies]
sync-unsafe-cell = "*"
voladdress = "*"
