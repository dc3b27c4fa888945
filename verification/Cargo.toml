[package]
name = "rds"
version = "0.1.0"
edition = "2021"
publish = false

[dependencies]
regex = "1"
rand = "0.5"
serde = "1"
serde_derive = "1"
serde_ini = "0.2"
failure = { version = "0.1", default-features = false, features = ["std"] }
noisy_float = "0.1"
