[package]
name = "shuffle_core"
version = "0.1.0"
edition = "2021"
publish = false

[dependencies]
directories = "4"
ed25519-dalek = "2"
hex = "0.4"
rand = "0.8"
regex = "1"
serde = { version = "1", features = ["derive"] }
sha3 = "0.10"
toml = "0.5"
