[package]
name = "adv2_splitter"
version = "0.1.0"
edition = "2021"
publish = false

[dependencies]
gmod-lzma = "*"
pico-args = "*"
