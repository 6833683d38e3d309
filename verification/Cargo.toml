[package]
name = "zk_index"
version = "0.1.0"
edition = "2021"
publish = false

[dependencies]
anyhow = "*"
clap = "*"
diesel = { version = "*", features = ["sqlite"] }
env_logger = "*"
log = "*"
markdown-it = "*"
notify = "*"
urlencoding = "*"
walkdir = "*"
