[package]
name = "rufka"
version = "0.1.0"
edition = "2021"
publish = false

[dependencies]
bincode = "1"
bytes = { version = "0.4", features = ["serde"] }
crossbeam-channel = "0.5"
error-chain = "0.12"
futures = "0.1"
nom = "4"
parking_lot = "0.12"
serde = "1"
serde_derive = "1"
slab = "0.4"
structopt = "0.2"
tokio = "0.1"
tokio-io = "0.1"
