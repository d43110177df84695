[package]
name = "hgrep"
version = "0.1.0"
edition = "2021"
publish = false

[dependencies]
ansi_term = "0.12"
anyhow = "1"
bincode = "1"
clap = "4"
clap_complete = "4"
flate2 = "1"
memchr = "2"
mimalloc = { version = "0.1", default-features = false }
rayon = "1"
rgb2ansi256 = "0.1"
syntect = { version = "5", default-features = false, features = ["default-fancy"] }
unicode-width = "0.1"
