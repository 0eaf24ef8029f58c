[package]
name = "syra_core"
version = "0.1.0"
edition = "2021"
publish = false

[dependencies]
ark-bls12-381 = "=0.4.0"
ark-bn254 = "=0.4.0"
ark-ec = "=0.4.2"
ark-ff = "=0.4.2"
ark-groth16 = "=0.4.0"
ark-serialize = "=0.4.2"
ark-snark = "=0.4.0"
ark-std = { version = "=0.4.0", features = ["getrandom"] }
base64 = "=0.21.7"
blake2 = "=0.10.6"
dock_crypto_utils = "=0.23.0"
hex = "=0.4.3"
num-bigint = "=0.4.8"
serde = { version = "1", features = ["derive"] }
serde_json = "1"
