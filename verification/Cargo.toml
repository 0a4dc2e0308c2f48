[package]
name = "oylswap"
version = "0.1.0"
edition = "2021"
publish = false

[dependencies]
ruint = "1"
num = "0.4"
anyhow = "1"
