[package]
name = "rational"
version = "0.1.0"
edition = "2021"

[dependencies]
num = "*"
