[package]
name = "tap-tunnel"
version = "0.1.0"
edition = "2021"
publish = false

[dependencies]
smoltcp = { version = "0.12", default-features = false, features = ["std", "medium-ethernet", "proto-ipv4", "proto-ipv6", "socket-tcp", "socket-udp", "iface-max-addr-count-8"] }
tokio = { version = "1", features = ["full"] }
serde = { version = "1", features = ["derive"] }
serde_json = "1"
clap = { version = "4", features = ["derive"] }
env_logger = "*"
log = "0.4"
libc = "0.2"
nix = { version = "*", features = ["sched", "poll"] }
rtnetlink = "*"
futures = "0.3"
ipnet = "2"
netconfig-rs = "*"
