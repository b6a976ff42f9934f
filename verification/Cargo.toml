[package]
name = "kristina_core"
version = "0.1.0"
edition = "2021"
publish = false

[dependencies]
aho-corasick = "1"
chrono = { version = "0.4", default-features = false, features = ["std", "now"] }
dashmap = "6"
parking_lot = "0.12"
rayon = "1"
serde = { version = "1", features = ["derive"] }
serde_json = "1"
xxhash-rust = { version = "0.8", features = ["xxh3"] }
