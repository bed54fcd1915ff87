[package]
name = "htmi"
version = "0.1.0"
edition = "2021"
publish = false

[dependencies]
html-escape = "0.2"
proc-macro2 = "1"
quote = "1"
syn = { version = "2", features = ["full"] }
