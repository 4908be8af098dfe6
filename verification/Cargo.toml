[package]
name = "custom_ospf"
version = "0.1.0"
edition = "2021"
publish = false

[dependencies]
anyhow = "1"
chrono = { version = "0.4", features = ["serde"] }
clap = { version = "4", features = ["derive"] }
env_logger = "*"
futures = "0.3"
get_if_addrs = "*"
ipnetwork = "*"
log = "0.4"
net-route = "*"
pnet = "*"
rtnetlink = "*"
serde = { version = "1", features = ["derive"] }
serde_json = "1"
socket2 = "*"
tokio = { version = "1", features = ["full"] }
