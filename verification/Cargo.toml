[package]
name = "fhe_life"
version = "0.1.0"
edition = "2021"
publish = false

[dependencies]
tfhe = { version = "=0.8.7", default-features = false, features = ["boolean", "shortint", "integer", "x86_64-unix"] }
rand = "=0.10.3"
