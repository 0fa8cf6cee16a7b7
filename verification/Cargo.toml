[package]
name = "npkill_rs"
version = "0.1.0"
edition = "2021"
publish = false

[dependencies]
anyhow = "1"
crossterm = "0.27"
ratatui = "0.23"
spinoff = "0.8"
