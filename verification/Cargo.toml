[package]
name = "header_translator"
version = "0.1.0"
edition = "2021"
publish = false

[dependencies]
apple-sdk = "*"
clang = "*"
objc = "*"
objc_id = "*"
libc = "*"
