[package]
name = "chatproto"
version = "0.1.0"
edition = "2021"
publish = false

[dependencies]
anyhow = "1"
async-std = "1"
byteorder = "1"
crossterm = "0.27"
crypto-hash = "0.3"
lazy_static = "1"
log = "0.4"
pretty_env_logger = "0.5"
ratatui = "0.26"
structopt = "0.3"
uuid = { version = "1", features = ["v4"] }
