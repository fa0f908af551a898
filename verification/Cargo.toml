[package]
name = "rustbuster"
version = "0.1.0"
edition = "2021"
publish = false

[dependencies]
hyper = "=1.11.1"
terminal_size = "*"
