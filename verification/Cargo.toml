[package]
name = "steering"
version = "0.1.0"
edition = "2021"
publish = false

[dependencies]
cgmath = "0.17"
rand = "0.7"
