[package]
name = "consistent_balances"
version = "0.1.0"
edition = "2021"
publish = false

[dependencies]
anyhow = "1"
async-graphql = "=7.2.1"
bincode = { version = "=2.0.1", features = ["serde"] }
sui-sdk-types = "=0.4.0"
thiserror = "1"
tonic = "=0.13.1"
