[package]
name = "cargo_killer"
version = "0.1.0"
edition = "2021"
publish = false

[dependencies]
bytefmt = "*"
crossbeam-channel = "*"
num_cpus = "*"
serde_json = "*"
spinners = "*"
