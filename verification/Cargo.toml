[package]
name = "karna_engine"
version = "0.1.0"
edition = "2021"
publish = false

[dependencies]
chrono = { version = "=0.4.45", default-features = false, features = ["std", "alloc"] }
rand = "=0.8.8"
num_cpus = "=1.17.0"
