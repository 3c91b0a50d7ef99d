[package]
name = "mlkem"
version = "0.1.0"
edition = "2021"
publish = false

[dependencies]
sha3 = "0.10"
thiserror = "2"

[dev-dependencies]
rand = "0.9"
rand_chacha = "0.9"
