[package]
name = "ruba"
version = "0.1.0"
edition = "2021"
publish = false

[dependencies]
bit-vec = "0.6"
num_cpus = "1"
rustyline = "*"
time = "0.1"
