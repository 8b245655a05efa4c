[package]
name = "dbgen_core"
version = "0.1.0"
edition = "2021"
publish = false

[dependencies]
chrono = "0.4"
clap = { version = "4", features = ["derive"] }
rand = "0.8"
rand_distr = "0.4"
shlex = "1"
