[package]
name = "reactor_core"
version = "0.1.0"
edition = "2021"
publish = false

[dependencies]
petgraph = "*"
priority-queue = "*"
bitset-fixed = "*"
index_vec = "*"
