[package]
name = "sota_client"
version = "0.1.0"
edition = "2021"
publish = false

[dependencies]
rustc-serialize = "=0.3.25"
rust-crypto = "=0.2.36"
time = "=0.3.55"
rand = "=0.10.3"
