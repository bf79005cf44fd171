[package]
name = "rustscan"
version = "0.1.0"
edition = "2021"
publish = false

[dependencies]
async-std = "1"
colored = "2"
colorful = "0.2"
dirs = "5"
env_logger = "0.11"
futures = "0.3"
log = "0.4"
rand = "0.8"
rlimit = "0.10"
