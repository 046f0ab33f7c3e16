[package]
name = "nemezis"
version = "0.1.0"
edition = "2021"
publish = false

[dependencies]
blake2b_simd = "*"
ed25519-dalek = "*"
glp = "*"
static_merkle_tree = "*"
hex = "*"
