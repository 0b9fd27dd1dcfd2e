[package]
name = "zkml"
version = "0.1.0"
edition = "2021"
publish = false

[dependencies]
anyhow = "1"
ark-bn254 = "0.5"
ark-ff = "0.5"
ark-std = "0.5"
bincode = { version = "2", features = ["serde"] }
clap = { version = "4", features = ["derive"] }
itertools = "0.14"
lazy_static = "1"
libc = "0.2"
num-integer = "0.1"
num_cpus = "1"
parking_lot = "0.12"
rayon = "1"
rmp-serde = "1"
serde = { version = "1", features = ["derive"] }
tracing = "0.1"
tracing-subscriber = { version = "0.3", features = ["env-filter"] }
