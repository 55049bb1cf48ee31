[package]
name = "allem"
version = "0.1.0"
edition = "2021"
publish = false

[dependencies]
itertools = "*"
syn = { version = "2", features = ["full"] }
proc-macro2 = "1"
quote = "1"
