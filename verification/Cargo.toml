[package]
name = "bsa"
version = "0.1.0"
edition = "2021"
publish = false

[dependencies]
flate2 = "1"
log = "0.4"
lz4 = "1"
pretty_env_logger = "0.4"
structopt = "0.3"
