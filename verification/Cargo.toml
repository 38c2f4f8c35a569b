[package]
name = "omnipaxos_ec"
version = "0.1.0"
edition = "2021"
publish = false

[dependencies]
reed-solomon-erasure = "6.0"
bincode = "1"
serde = { version = "1", features = ["derive"] }
