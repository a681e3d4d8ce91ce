[package]
name = "mnemonic"
version = "0.1.0"
edition = "2021"
publish = false

[dependencies]
bip39 = "*"
rand = "*"
sha2 = "*"
