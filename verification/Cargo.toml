[package]
name = "riverbed"
version = "0.1.0"
edition = "2021"
publish = false

[dependencies]
binary-greedy-meshing = "*"
lz4 = "1"
bincode = "1"
serde = { version = "1", features = ["derive"] }
glam = { version = "0.30", features = ["serde"] }
rand = "0.9"
chrono = "0.4"
crossbeam = "0.8"
crossbeam-skiplist = "*"
parking_lot = "0.12"
itertools = "*"
clap = { version = "4", features = ["derive"] }
confy = "*"
strum = { version = "0.27", features = ["derive"] }
strum_macros = "0.27"
