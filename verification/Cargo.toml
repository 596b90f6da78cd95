[package]
name = "mat"
version = "0.1.0"
edition = "2021"
publish = false

[dependencies]
regex = "*"
unicode-width = "*"
encoding_rs = "*"
pulldown-cmark = "*"
syntect = { version = "5", default-features = false, features = ["default-fancy"] }
terminal-light = "*"
clap = { version = "*", features = ["derive"] }
crossterm = "*"
ratatui = "*"
memmap2 = "*"
lru = "*"
once_cell = "*"
thiserror = "*"
