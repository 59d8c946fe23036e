[package]
name = "smallpt"
version = "0.1.0"
edition = "2021"

[dependencies]
image = { version = "0.24", default-features = false, features = ["png"] }
num_cpus = "1"
rand = "0.8"
