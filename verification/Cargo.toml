[package]
name = "storage_versioned"
version = "0.1.0"
edition = "2021"
publish = false

[dependencies]
itertools = "*"
rocksdb = "*"
fs_extra = "*"
