[package]
name = "field_extract"
version = "0.1.0"
edition = "2021"
publish = false

[dependencies]
compact_str = "*"
indicatif = "*"
rustc-hash = "*"
simd-json = "*"
tokio = { version = "*", features = ["rt-multi-thread", "macros", "sync", "time"] }
walkdir = "*"
zstd = "*"
