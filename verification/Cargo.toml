[package]
name = "rax25"
version = "0.1.0"
edition = "2021"
publish = false

[dependencies]
anyhow = "1"
bus = "2"
log = "0.4"
