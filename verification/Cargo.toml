[package]
name = "mincaml"
version = "0.1.0"
edition = "2021"
publish = false

[dependencies]
ordered-float = "*"

[dev-dependencies]
nom = "3"
