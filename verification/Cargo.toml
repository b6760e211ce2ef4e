[package]
name = "pcap_latency"
version = "0.1.0"
edition = "2021"
publish = false

[dependencies]
clap = { version = "4", features = ["derive"] }
pcap-parser = "0.14"
pnet = "0.34"
