[package]
name = "ctoken"
version = "0.1.0"
edition = "2021"
publish = false

[dependencies]
sha2 = "0.10"
cosmwasm-std = "0.10"
cosmwasm-storage = "0.10"
serde = { version = "1", features = ["derive"] }
bincode2 = "*"
