[package]
name = "dbz"
version = "0.2.1"
edition = "2021"
publish = false

[dependencies]
zstd = "*"
databento-defs = "*"
