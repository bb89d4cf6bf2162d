[package]
name = "usage_ledger"
version = "0.1.0"
edition = "2021"
publish = false

[dependencies]
chrono = "*"
dirs = "*"
walkdir = "*"
notify-debouncer-mini = "*"
