[package]
name = "sha3_gadget"
version = "0.1.0"
edition = "2021"
publish = false

[dependencies]
ff = "=0.13.1"
haloumi = { version = "=0.5.15", default-features = false }
haloumi-extractor = { version = "=0.6.0", default-features = false }
mdnt-support = "=0.2.12"
midnight-curves = "=0.3.1"
midnight-proofs = "=0.8.3"
num-bigint = "=0.4.8"
