[package]
name = "chess_engine"
version = "0.1.0"
edition = "2021"
publish = false

[dependencies]
termcolor = "1"
sfml = "0.16"
gdnative = "0.9"

[dev-dependencies]
rand = "0.8"
