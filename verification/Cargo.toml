[package]
name = "bestool"
version = "0.1.0"
edition = "2021"
publish = false

[dependencies]
crc = "3"
serialport = { version = "4", default-features = false }
tracing = "0.1"
tracing-subscriber = "0.3"
clap = { version = "4", features = ["derive"] }
