[package]
name = "aws_switch"
version = "0.1.0"
edition = "2021"
publish = false

[dependencies]
dirs = "*"
env_logger = "*"
log = "0.4"
structopt = "0.3"
