[package]
name = "rusty_router"
version = "0.1.0"
edition = "2021"
publish = false

[dependencies]
rand = "0.8"
uuid = { version = "0.8", features = ["v4"] }
serde = { version = "1", features = ["derive"] }
thiserror = "1"
tokio = { version = "1", features = ["full"] }
async-trait = "0.1"
log = "0.4"
env_logger = "0.9"
netlink-packet-core = "0.5"
netlink-packet-route = "0.15"
netlink-sys = { version = "0.8", features = ["tokio_socket"] }
nix = "0.20"
libc = "0.2"
caps = "0.5"
