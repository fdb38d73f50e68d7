[package]
name = "calcli"
version = "0.1.0"
edition = "2021"
publish = false

[dependencies]
meval = "*"
colored = "*"
rustyline = "*"
