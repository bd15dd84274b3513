[package]
name = "sint"
version = "0.1.0"
edition = "2021"
publish = false

[dependencies]
aes = "0.8"
rand = "0.8"
pnet = "*"
pnet_datalink = "*"
pnet_packet = "*"
pnet_transport = "*"
flume = "*"
clap = { version = "*", features = ["derive"] }
