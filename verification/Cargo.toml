[package]
name = "ecoord"
version = "0.1.0"
edition = "2021"
publish = false

[dependencies]
petgraph = "*"
rand = "0.8"
nalgebra = "*"
chrono = "*"
serde = { version = "*", features = ["derive"] }
serde_json = "*"
csv = "*"
zstd = "*"
clap = { version = "*", features = ["derive"] }
thiserror = "*"
anyhow = "*"
walkdir = "*"
tracing = "*"
tracing-subscriber = "*"
