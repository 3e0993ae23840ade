[package]
name = "ecg_world"
version = "0.1.0"
edition = "2021"
publish = false

[dependencies]
tokio = { version = "1", features = ["rt-multi-thread"] }
rand = "0.8"
num_cpus = "1"
