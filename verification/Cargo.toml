[package]
name = "uplc"
version = "0.1.0"
edition = "2021"
publish = false

[dependencies]
hex = "0.4"
pretty = "0.11"
