[package]
name = "uring_cat"
version = "0.1.0"
edition = "2021"
publish = false

[dependencies]
anyhow = "1"
io-uring = "0.7"
libc = "0.2"
