[package]
name = "bit_to_byte"
version = "0.1.0"
edition = "2021"
publish = false

[dependencies]
getrandom = "=0.3.4"
crossterm = "=0.28.1"
ratatui = "=0.29.0"
socket2 = { version = "=0.5.10", features = ["all"] }
