[package]
name = "reputation_staking"
version = "0.1.0"
edition = "2021"
publish = false

[dependencies]
alloy-primitives = "*"
