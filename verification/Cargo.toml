[package]
name = "dp_client"
version = "0.1.0"
edition = "2021"
publish = false

[dependencies]
openssl = "0.10"
curve25519-dalek = "3"
rand = "0.8"
rand_core = { version = "0.5", features = ["getrandom"] }
sha3 = "0.10"
coinflip = "*"
