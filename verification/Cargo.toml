[package]
name = "quorum_sim"
version = "0.1.0"
edition = "2021"
publish = false

[dependencies]
rand = "0.8"
rayon = "1"
tiny-keccak = "1"
clap = "4"
