[package]
name = "ate"
version = "0.1.0"
edition = "2021"
publish = false

[dependencies]
blake3 = "=1.8.7"
ed25519-dalek = "=3.0.0"
fastrand = "*"
multimap = "=0.10.1"
