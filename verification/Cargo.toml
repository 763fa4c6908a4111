[package]
name = "masterdesk_net"
version = "0.1.0"
edition = "2021"
publish = false

[dependencies]
anyhow = "1"
base64 = "0.22"
default-net = "0.14"
futures = "0.3"
log = "0.4"
protobuf = "3.7"
sodiumoxide = "0.2"
tokio = { version = "1", features = ["net", "rt", "time"] }
tokio-socks = "0.5"
winapi = { version = "0.3", features = ["ifdef", "ipifcons", "netioapi", "winsock2", "ws2def"] }
