[package]
name = "leveldb_parser"
version = "0.1.0"
edition = "2021"
publish = false

[dependencies]
chrono = "*"
crc32c = "*"
snap = "*"
zstd = "*"
