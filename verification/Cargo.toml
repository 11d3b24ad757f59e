[package]
name = "burnx-sequence"
version = "0.1.0"
edition = "2021"
publish = false

[dependencies]
rand = "=0.8.8"
burn = { version = "=0.13.2", default-features = false, features = ["std", "dataset"] }
bincode = { version = "=2.0.0-rc.3", default-features = false }
