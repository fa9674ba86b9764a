[package]
name = "bf_zkvm"
version = "0.1.0"
edition = "2021"
publish = false

[dependencies]
halo2curves = "*"
halo2_proofs = "=0.4.0"
