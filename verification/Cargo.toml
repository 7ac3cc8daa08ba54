[package]
name = "instpay"
version = "0.1.0"
edition = "2021"
publish = false

[dependencies]
ring = "*"
ripemd = "*"
bs58 = "*"
libsecp256k1 = "*"
sha2 = "*"
