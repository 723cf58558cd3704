[package]
name = "hanover_flipdot"
version = "0.1.0"
edition = "2021"
publish = false

[dependencies]
bitvec = "1"
core-error = "*"
embedded-graphics = "0.8"
