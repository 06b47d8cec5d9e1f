[package]
name = "microcosm"
version = "0.1.0"
edition = "2021"
publish = false

[dependencies]
anyhow = "1"
cosmwasm-schema = "1"
cosmwasm-std = "1"
cw-storage-plus = "1"
proc-macro2 = "1"
quote = "1"
schemars = "0.8"
serde = { version = "1", features = ["derive"] }
syn = { version = "2", features = ["full"] }
thiserror = "1"
