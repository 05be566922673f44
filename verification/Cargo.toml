[package]
name = "dump_analyser"
version = "0.1.0"
edition = "2021"
publish = false

[dependencies]
pcap-file = "*"
clap = { version = "*", features = ["derive"] }
csv = "*"
env_logger = "*"
log = "*"
serde = { version = "*", features = ["derive"] }
