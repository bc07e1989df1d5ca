[package]
name = "shvcall"
version = "3.0.0"
edition = "2021"
publish = false

[dependencies]
async-channel = "2"
async-std = "1"
clap = { version = "4", features = ["derive"] }
crossterm = "*"
futures = "0.3"
futures-time = "3"
log = "0.4"
rustyline-async = "*"
serialport = { version = "4", default-features = false }
shvproto = "8"
shvrpc = "22"
simple_logger = "*"
smol = "2"
url = "2"
