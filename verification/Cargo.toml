[package]
name = "seeyuj"
version = "0.1.0"
edition = "2021"
publish = false

[dependencies]
crc32fast = "*"
xxhash-rust = { version = "*", features = ["xxh64"] }
