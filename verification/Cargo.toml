[package]
name = "plonk_prover"
version = "0.1.0"
edition = "2021"
publish = false

[dependencies]
ark-ff = "0.4.2"
ark-poly = "0.4.2"
ark-bn254 = "0.4.0"
rand_core = { version = "0.6.4", features = ["getrandom"] }
