[package]
name = "spacemines"
version = "0.1.0"
edition = "2021"
publish = false

[dependencies]
atoi = "2"
backtrace = "0.3"
clap = { version = "4", features = ["derive"] }
crc = "3"
itoa = "1"
rand = "0.8"
