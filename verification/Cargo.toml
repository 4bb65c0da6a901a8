[package]
name = "obfustring"
version = "0.1.0"
edition = "2021"
publish = false

[dependencies]
proc-macro2 = "1"
quote = "1"
rand = "0.8"
syn = "2"
