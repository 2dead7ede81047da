[package]
name = "constant_sandbox"
version = "1.0.0"
edition = "2021"
publish = false

[dependencies]
clap = "2"
crossbeam-channel = "0.5"
glob = "0.3"
lib-ruby-parser = "*"
num_cpus = "1"
regex = "1"
serde = { version = "1", features = ["derive"] }
serde_yaml = "0.8"
