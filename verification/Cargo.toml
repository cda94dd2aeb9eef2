[package]
name = "axiom_os"
version = "0.1.0"
edition = "2021"
publish = false

[dependencies]
ed25519-dalek = { version = "=2.2.0", features = ["rand_core"] }
sha2 = "=0.10.9"

[dev-dependencies]
rand_core = { version = "=0.6.4", features = ["getrandom"] }
