[package]
name = "aco_rust"
version = "0.1.0"
edition = "2021"
publish = false

[dependencies]
permutation = "0.4"
byteorder = "1"
rand = "0.8"
rayon = "1"
memmap = "0.7"
fnv = "1"
