[package]
name = "zero_tracer"
version = "0.1.0"
edition = "2021"
publish = false

[dependencies]
mpt_trie = "*"
keccak-hash = "0.10"
primitive-types = "0.12"
serde = { version = "1", features = ["derive"] }
serde_json = "1"
rusqlite = { version = "*", features = ["bundled"] }
