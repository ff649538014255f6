[package]
name = "truthcoin"
version = "0.1.0"
edition = "2021"
publish = false

[dependencies]
bitcoin = "=0.32.102"
blake3 = "=1.8.7"
borsh = { version = "=1.8.1", features = ["derive"] }
const-hex = "=1.19.3"
fallible-iterator = "=0.3.0"
frost-core = "=3.0.0"
frost-ristretto255 = "=3.0.0"
heed = "=0.22.1"
hex = "=0.4.3"
nalgebra = "=0.35.0"
nonempty = "=0.12.0"
rand = "=0.8.8"
rand_chacha = "=0.3.1"
serde = { version = "=1.0.229", features = ["derive"] }
sneed = "=0.0.22"
thiserror = "=2.0.21"
url = "=2.5.8"

[dev-dependencies]
curve25519-dalek = "=4.1.3"
