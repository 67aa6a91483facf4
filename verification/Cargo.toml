[package]
name = "stoolap"
version = "0.1.0"
edition = "2021"
publish = false

[dependencies]
sha2 = "=0.10.9"
blake3 = { version = "=1.8.7", features = ["pure"] }
starknet-crypto = "=0.6.2"
rand = "=0.8.8"
rayon = "=1.12.0"
libloading = "=0.8.9"
serde = { version = "=1.0.229", features = ["derive"] }
serde_json = "1"
stwo = "*"
cairo-air = "*"
