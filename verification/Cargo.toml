[package]
name = "blockchain"
version = "0.1.0"
edition = "2021"
publish = false

[dependencies]
chrono = "0.4"
hex = "0.4"
k256 = "0.13"
rand = "0.8"
ripemd = "0.1"
sha2 = "0.10"
sled = "0.34"

[dev-dependencies]
