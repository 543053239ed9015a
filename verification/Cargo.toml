[package]
name = "identity_core"
version = "0.1.0"
edition = "2021"
publish = false

[dependencies]
rust-argon2 = "0.8"
rand = "0.7"
regex = "1"
unicode-normalization = "0.1"
