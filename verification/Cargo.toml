[package]
name = "valida_air"
version = "0.1.0"
edition = "2021"
publish = false

[dependencies]
p3-air = "*"
p3-field = "*"
p3-matrix = "*"
p3-challenger = "*"
p3-commit = "*"

[dev-dependencies]
p3-baby-bear = "*"
