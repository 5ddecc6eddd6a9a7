[package]
name = "unravel"
version = "0.1.0"
edition = "2021"

[dependencies]
elf = "0.0.10"
