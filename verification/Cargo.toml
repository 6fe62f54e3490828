[package]
name = "pcf_parser"
version = "0.1.0"
edition = "2021"
publish = false

[dependencies]
embedded-graphics = "*"
proc-macro2 = "*"
quote = "*"
syn = "*"
