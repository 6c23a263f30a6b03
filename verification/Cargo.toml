[package]
name = "kvbench"
version = "0.1.0"
edition = "2021"
publish = false

[dependencies]
rand = "=0.8.8"
clap = { version = "4", features = ["derive"] }
core_affinity = "*"
cpuprofiler = "*"
crossbeam-skiplist = "0.1"
bplustree = "*"
congee = "*"
