[package]
name = "linear_gkr"
version = "0.1.0"
edition = "2021"
publish = false

[dependencies]
ark-bn254 = "*"
ark-ff = "*"
rand = "0.8"
clap = { version = "*", features = ["derive"] }
anyhow = "*"
