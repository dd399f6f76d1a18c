[package]
name = "stick"
version = "0.1.0"
edition = "2021"
publish = false

[dependencies]
ariadne = "0.4"
logos = "0.14"
strip-ansi-escapes = "0.2"
