[package]
name = "fhe_life"
version = "0.1.0"
edition = "2021"
publish = false

[dependencies]
tfhe = { version = "*", features = ["shortint"] }
rayon = "*"
rand = "*"
