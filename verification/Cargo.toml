[package]
name = "mdcanon"
version = "0.1.0"
edition = "2021"
publish = false

[dependencies]
comrak = "*"
