[package]
name = "finality_proof"
version = "0.1.0"
edition = "2021"
publish = false

[dependencies]
parity-scale-codec = { version = "=2.3.1", default-features = false, features = ["std"] }
sp-runtime = "=3.0.0"
sp-blockchain = "=3.0.0"
sp-finality-grandpa = "=3.0.0"
sc-client-api = "=3.0.0"
substrate-bip39 = "=0.4.4"
derive_more = "=0.99.20"
log = "=0.4.34"
