[package]
name = "polkadot-re-mock"
version = "0.1.0"
edition = "2021"
publish = false

[dependencies]
parity-scale-codec = "3"
thiserror = "1"
wasmi = "0.6"
