[package]
name = "eris"
version = "0.1.0"
edition = "2021"
publish = false

[dependencies]
pbkdf2 = "*"
sha2 = "*"
hex = "*"
chrono = "*"
clap = { version = "*", features = ["derive"] }
csv = "*"
encoding_rs = "*"
encoding_rs_io = "*"
anyhow = "*"
inquire = "*"
