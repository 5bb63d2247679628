[package]
name = "r1cs_gadgets"
version = "0.1.0"
edition = "2021"
publish = false

[dependencies]
ark-ff = "*"
ark-relations = "*"
ark-std = "*"

[dev-dependencies]
ark-test-curves = { version = "*", features = ["bls12_381_curve"] }
