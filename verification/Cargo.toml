[package]
name = "metadata_exchange"
version = "0.1.0"
edition = "2021"
publish = false

[dependencies]
bendy = "*"
sha1 = "*"
