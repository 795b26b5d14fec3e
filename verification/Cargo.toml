[package]
name = "zoomerjoin"
version = "0.1.0"
edition = "2021"
publish = false

[dependencies]
dashmap = "5"
itertools = "0.10"
ndarray = "0.15"
ndarray-rand = "0.14"
num_cpus = "1"
rand = "0.8"
rayon = "1"
rustc-hash = "1.1"
