[package]
name = "ascii_screensaver"
version = "0.1.0"
edition = "2021"
publish = false

[dependencies]
rand = "0.8"
chrono = "0.4"
crossterm = "0.28"
signal-hook = "0.3"
