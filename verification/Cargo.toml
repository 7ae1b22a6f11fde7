[package]
name = "zkp_circuit_compiler"
version = "0.1.0"
edition = "2021"
publish = false

[dependencies]
num-bigint = { version = "0.4", features = ["rand"] }
num-traits = "0.2"
rand = "0.8"
thiserror = "1"
clap = { version = "4", features = ["derive"] }
