[package]
name = "dreadpool"
version = "0.1.0"
edition = "2021"
publish = false

[dependencies]
crossbeam = "0.8"
num_cpus = "1"

[dev-dependencies]
rand = "0.9"
