[package]
name = "cov_kernel"
version = "0.1.0"
edition = "2021"
publish = false

[dependencies]
wide = "*"
chrono = "*"
clap = { version = "*", features = ["derive"] }
itertools = "*"
rand = "*"
