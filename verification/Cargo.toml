[package]
name = "evm_journal"
version = "0.1.0"
edition = "2021"
publish = false

[dependencies]
hashbrown = "0.14"
primitive-types = { version = "0.12", default-features = false }
sha2 = "0.10"
ripemd = "0.1"
revm-primitives = { version = "2", default-features = false, features = ["std"] }
