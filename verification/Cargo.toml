[package]
name = "deptool"
version = "0.1.0"
edition = "2021"
publish = false

[dependencies]
anyhow = "1"
clang = { version = "2", features = ["runtime"] }
clap = { version = "4", features = ["derive"] }
fnv = "1"
