[package]
name = "regname"
version = "0.1.0"
edition = "2021"
publish = false

[dependencies]
iocraft = "*"
regex = "1"
smol = "2"
