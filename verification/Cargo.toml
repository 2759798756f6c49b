[package]
name = "gol_core"
version = "0.1.0"
edition = "2021"
publish = false

[dependencies]
itertools = "0.10"
flate2 = "1"
serde = { version = "1", features = ["derive"] }
serde_json = "1"
bincode = "1"
clap = "2"
rand = "0.8"
shellexpand = "2"
crossbeam-channel = "0.5"
rayon = "1"
tokio = { version = "1", default-features = false, features = ["sync"] }
num-traits = "0.2"
