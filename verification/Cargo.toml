[package]
name = "epic_mickey"
version = "0.1.0"
edition = "2021"

[dependencies]
flate2 = "1"
serde_json = "1"
