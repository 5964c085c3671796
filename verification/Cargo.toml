[package]
name = "ledger_registries"
version = "0.1.0"
edition = "2021"
publish = false

[dependencies]
soroban-sdk = "*"
