[package]
name = "rustle-tui"
version = "0.1.0"
edition = "2021"
publish = false

[dependencies]
blake3 = { version = "1", default-features = false, features = ["pure"] }
rand = "0.9"
crossterm = "0.28"
ratatui = "0.29"
zxcvbn = "2"
dirs = "5"
