[package]
name = "descriptor"
version = "0.1.0"
edition = "2021"
publish = false

[dependencies]
chrono = "=0.4.45"
convert_case = "=0.6.0"
strip-ansi-escapes = "*"
