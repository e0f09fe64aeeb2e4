[package]
name = "mpc_snarks"
version = "0.1.0"
edition = "2021"
publish = false

[dependencies]
ark-bls12-377 = "0.3"
ark-ec = "0.3"
ark-ff = "0.3"
ark-std = "0.3"
rand = "0.8"
