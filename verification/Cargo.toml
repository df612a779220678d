[package]
name = "serial_framing"
version = "0.1.0"
edition = "2021"
publish = false

[dependencies]
generic-array = "0.14"
log = "0.4"
pretty-hex = "*"
