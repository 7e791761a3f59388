[package]
name = "yp"
version = "0.1.0"
edition = "2021"
publish = false

[dependencies]
iterable = "*"
itertools = "*"
indexmap = "*"
structopt = "*"
