[package]
name = "ditherpunk"
version = "0.1.0"
edition = "2021"

[dependencies]
rand = "0.8"
image = "0.24"
argh = "0.1"
