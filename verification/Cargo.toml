[package]
name = "dnb_ledger"
version = "0.1.0"
edition = "2021"
publish = false

[dependencies]
chrono = "*"
csv = "*"
ledger-parser = "*"
rust_decimal = "*"
