[package]
name = "chatter"
version = "0.1.0"
edition = "2021"
publish = false

[dependencies]
itertools = "=0.15.0"
fastrand = "=2.5.0"
memmap2 = "=0.9.11"
web-rwkv = "=0.1.18"
