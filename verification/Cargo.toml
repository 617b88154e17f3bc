[package]
name = "reveal_merge"
version = "0.1.0"
edition = "2021"
publish = false

[dependencies]
amplify = "3"
bitcoin = "0.26"
lnpbp = "=0.4.0"
strict_encoding = "~1.2"
strict_encoding_derive = "~1.0"
