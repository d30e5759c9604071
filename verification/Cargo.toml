[package]
name = "deduplicate_files"
version = "0.1.0"
edition = "2021"
publish = false

[dependencies]
same-file = "=1.0.6"
walkdir = "=2.5.0"
