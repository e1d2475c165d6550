[package]
name = "vrac"
version = "0.1.0"
edition = "2021"
publish = false

[dependencies]
chrono = "=0.4.45"
scrypt = "=0.11.0"
base64 = "=0.23.1"
