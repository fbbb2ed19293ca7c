[package]
name = "orts"
version = "0.1.0"
edition = "2021"
publish = false

[dependencies]
nalgebra = "0.33"
