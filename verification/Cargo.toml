[package]
name = "tmuxedo"
version = "0.1.0"
edition = "2021"
publish = false

[dependencies]
clap = { version = "4", features = ["derive"] }
crossterm = "*"
dirs = "*"
fuzzy-matcher = "*"
ratatui = "*"
regex = "1"
rust-ini = "*"
tokio = { version = "1", features = ["rt-multi-thread", "macros", "process", "io-util"] }
walkdir = "2"
