[package]
name = "embed_host"
version = "0.1.0"
edition = "2021"

[dependencies]
libc = "*"
