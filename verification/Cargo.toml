[package]
name = "rust_sokoban"
version = "0.1.0"
edition = "2021"
publish = false

[dependencies]
ggez = "=0.5.1"
itertools = "=0.9.0"
