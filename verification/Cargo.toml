[package]
name = "ip2asn"
version = "0.1.0"
edition = "2021"
publish = false

[dependencies]
ip_network = "0.4"
ip_network_table = "0.2"
flate2 = "1"
clap = { version = "4", features = ["derive"] }
home = "0.5"
httpdate = "1"
indicatif = "0.17"
reqwest = { version = "0.12", features = ["blocking"] }
serde = { version = "1", features = ["derive"] }
serde_json = "1"
toml = "0.8"
tracing = "0.1"
