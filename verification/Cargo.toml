[package]
name = "spl_record"
version = "0.1.0"
edition = "2021"
publish = false

[dependencies]
solana-program-error = "*"
thiserror = "*"
num-derive = "*"
num-traits = "*"
