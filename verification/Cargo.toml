[package]
name = "commit_reveal"
version = "0.1.0"
edition = "2021"
publish = false

[dependencies]
sp-core = "=43.0.0"
sp-crypto-hashing = "=0.1.0"
parity-scale-codec = { version = "=3.7.5", features = ["derive"] }
libp2p = { version = "=0.56.0", default-features = false }
futures = "=0.3.34"
log = "=0.4.35"
