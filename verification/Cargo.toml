[package]
name = "sniffnet_agent"
version = "0.1.0"
edition = "2021"
publish = false

[dependencies]
clap = { version = "4", features = ["derive"] }
jiff = "0.2"
log = "0.4"
pcap = "2"
sniffnet-packet-parser = "*"
tracing = "0.1"
