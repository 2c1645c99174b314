[package]
name = "matmul_r1cs"
version = "0.1.0"
edition = "2021"
publish = false

[dependencies]
rand = "0.8"
rand_chacha = "0.3"
ark-marlin = "0.3"
ark-bn254 = "0.3"
ark-ff = "0.3"
ark-poly = "0.3"
ark-poly-commit = "0.3"
ark-relations = "0.3"
ark-std = "0.3"
blake2 = "0.9"
