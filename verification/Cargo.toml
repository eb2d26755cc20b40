[package]
name = "csv_normalizer"
version = "0.1.0"
edition = "2021"
publish = false

[dependencies]
csv = "1"
rfd = "0.15"
