[package]
name = "bonded_bft"
version = "0.1.0"
edition = "2021"
publish = false

[dependencies]
candid = "0.10"
ed25519-dalek = "2"
getrandom = "0.2"
hex = "0.4"
hkdf = "0.12"
ic-cdk = "0.13"
ic-cdk-macros = "0.13"
ic-stable-structures = "0.6"
serde = { version = "1", features = ["derive"] }
serde_json = "1"
sha2 = "0.10"

[dev-dependencies]
