[package]
name = "ledger"
version = "0.1.0"
edition = "2021"
publish = false

[dependencies]
csv = "1"
serde = { version = "1", features = ["derive"] }

[dev-dependencies]
rand = "0.8"
rand_chacha = "0.3"
