[package]
name = "revision_audit"
version = "0.1.0"
edition = "2021"
publish = false

[dependencies]
rayon = "1"
walkdir = "2"

[dev-dependencies]
regex = "1"
