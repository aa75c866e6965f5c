[package]
name = "wallet_core"
version = "0.1.0"
edition = "2021"
publish = false

[dependencies]
rand_chacha = "0.3"
rand_core = "0.6"
