[package]
name = "tsp_ga"
version = "0.1.0"
edition = "2021"
publish = false

[dependencies]
rand = "0.8"
rayon = "1"
itertools = "0.12"
serde = { version = "1", features = ["derive"] }
bincode = "1"
mpi = "*"
