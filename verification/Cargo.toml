[package]
name = "simple_cas"
version = "0.1.0"
edition = "2021"
publish = false

[dependencies]
untwine = "*"
