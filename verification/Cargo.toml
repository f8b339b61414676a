[package]
name = "eris_logic"
version = "0.1.0"
edition = "2021"
publish = false

[dependencies]
cosmwasm-std = { version = "=1.5.11", features = ["staking"] }
cosmwasm-schema = "=1.5.11"
cw-storage-plus = "=1.2.0"
cw2 = "=1.1.2"
cw20 = "=1.1.2"
serde = { version = "=1.0.229", default-features = false, features = ["derive"] }
schemars = "=0.8.22"
thiserror = "=1.0.69"
itertools = "=0.10.5"
astroport = "2"
