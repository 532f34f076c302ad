[package]
name = "ax"
version = "0.1.0"
edition = "2021"
publish = false

[dependencies]
clap = "3"
rand = "0.8"
