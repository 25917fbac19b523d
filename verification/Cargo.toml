[package]
name = "mcl"
version = "0.1.0"
edition = "2021"
publish = false

[dependencies]
ark-bls12-381 = "0.5"
ark-ec = "0.5"
ark-ff = "0.5"
sha2 = "0.10"
getrandom = "0.2"
serde = "1"
