[package]
name = "cpplumber"
version = "0.1.0"
edition = "2021"
publish = false

[dependencies]
anyhow = "*"
clang = "*"
env_logger = "*"
glob = "*"
log = "*"
serde = { version = "*", features = ["derive"] }
serde_json = "*"
structopt = "*"
widestring = "*"
