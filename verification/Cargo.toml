[package]
name = "stellar-id"
version = "0.1.0"
edition = "2021"
publish = false

[dependencies]
soroban-sdk = "29"

[dev-dependencies]
soroban-sdk = { version = "29", features = ["testutils"] }
