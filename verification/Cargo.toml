[package]
name = "software_modem"
version = "0.1.0"
edition = "2021"
publish = false

[dependencies]
realfft = "3"
smart-default = "0.7"
