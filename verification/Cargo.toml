[package]
name = "udp_csv"
version = "0.1.0"
edition = "2021"
publish = false

[dependencies]
clap = { version = "4", features = ["derive"] }
local-ip-address = "0.6"

[dev-dependencies]
byteorder = "1"
