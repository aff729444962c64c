[package]
name = "minsearch"
version = "0.1.0"
edition = "2021"
publish = false

[dependencies]
polynomial = "*"
roots = "*"
scilib = "*"
rand = "*"
ordered-float = "*"
