[package]
name = "chronos"
version = "0.1.0"
edition = "2021"
publish = false

[dependencies]
rand = "0.8"
rand_distr = "0.4"
serde = { version = "1", features = ["derive"] }
serde_json = "1"
bincode = "1"
flate2 = "1"
toml = "0.8"
clap = { version = "4", features = ["derive"] }
thiserror = "1"
tracing = "0.1"
futures = "0.3"
petgraph = "0.6"
ctrlc = "3"
