[package]
name = "klavier_jack"
version = "0.1.0"
edition = "2021"
publish = false

[dependencies]
error-stack = "0.5"
jack = "*"
klavier-core = "*"
klavier-helper = "*"
tracing = "0.1"
