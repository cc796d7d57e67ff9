[package]
name = "rust_asn1"
version = "0.1.0"
edition = "2021"
publish = false

[dependencies]
bytes = "1"
num-bigint = "0.4"
num-traits = "0.2"
chrono = "0.4"
