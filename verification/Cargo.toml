[package]
name = "coin_ownership"
version = "0.1.0"
edition = "2021"
publish = false

[dependencies]
anyhow = "1"
async-trait = "0.1"
diesel = { version = "2", default-features = false }
tokio = { version = "1", default-features = false, features = ["sync"] }
