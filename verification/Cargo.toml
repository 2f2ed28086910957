[package]
name = "tgrade_contracts"
version = "0.1.0"
edition = "2021"
publish = false

[dependencies]
integer-sqrt = "=0.1.5"
rust_decimal = { version = "=1.33.1", features = ["maths"] }
chrono = { version = "=0.4.45", default-features = false, features = ["alloc"] }
semver = "=1.0.28"
cosmwasm-std = "=1.5.11"
cw-storage-plus = "=1.2.0"
serde = { version = "=1.0.229", features = ["derive"] }
schemars = "=0.8.22"
thiserror = "=1.0.69"
