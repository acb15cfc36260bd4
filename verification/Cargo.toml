[package]
name = "plug2proxy"
version = "2.0.0"
edition = "2021"
publish = false

[dependencies]
anyhow = "=1.0.104"
async-trait = "=0.1.92"
bytes = "=1.12.1"
flume = "=0.12.0"
futures = "=0.3.34"
libc = "=0.2.191"
log = "=0.4.35"
maxminddb = "=0.32.0"
moka = { version = "=0.12.16", features = ["sync"] }
postcard = { version = "=1.1.3", features = ["use-std"] }
prost = "=0.14.4"
quiche = "=0.30.0"
rand = "=0.9.5"
regex = "=1.13.1"
reqwest = { version = "=0.12.28", default-features = false }
serde = { version = "=1.0.229", features = ["derive"] }
socket2 = "=0.6.5"
socks5-server = "=0.10.1"
thiserror = "=2.0.21"
tokio = { version = "=1.54.1", features = ["full"] }
uuid = { version = "=1.29.0", features = ["v4", "serde"] }
