[package]
name = "specs"
version = "0.1.0"
edition = "2021"
publish = false

[dependencies]
hibitset = "*"
pulse = "*"
threadpool = "*"
num_cpus = "*"
