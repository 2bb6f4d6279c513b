[package]
name = "nbt_reader"
version = "0.1.0"
edition = "2021"
publish = false

[dependencies]
bytes = "0.4"
compress = "*"
crossterm = "0.25"
nom = "7"
tui = "0.19"
