[package]
name = "potigol_interpreter"
version = "0.1.0"
edition = "2021"
publish = false

[dependencies]
winnow = "0.7"
