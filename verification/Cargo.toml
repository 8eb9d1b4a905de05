[package]
name = "zin_lib"
version = "0.1.0"
edition = "2021"
publish = false

[dependencies]
indexmap = "=2.14.2"
float_eq = "=1.0.1"
logos = "0.12"
pomelo = "*"
