[package]
name = "runtime_cache"
version = "0.1.0"
edition = "2021"
publish = false

[dependencies]
ruzstd = "0.9"
tar = "=0.4.46"
tracing = "=0.1.44"

[dev-dependencies]
zstd = "=0.13.4"
