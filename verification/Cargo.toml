[package]
name = "attestation_prover"
version = "0.1.0"
edition = "2021"
publish = false

[dependencies]
ethers = { version = "2", default-features = false }
actix-web = { version = "4", default-features = false }
anyhow = "1"
clap = { version = "4", features = ["derive"] }
hex = "0.4"
log = "0.4"
