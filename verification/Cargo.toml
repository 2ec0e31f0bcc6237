[package]
name = "zkevm_circuits"
version = "0.1.0"
edition = "2021"
publish = false

[dependencies]
halo2_proofs = "*"
tiny-keccak = { version = "*", features = ["keccak"] }
