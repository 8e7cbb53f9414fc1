[package]
name = "molva"
version = "0.1.0"
edition = "2021"
publish = false

[dependencies]
rand = "=0.8.8"
names = { version = "=0.14.0", default-features = false }
rocksdb = { version = "=0.25.0", default-features = false }
env_logger = "=0.11.11"
log = "=0.4.35"
libp2p = { version = "0.54", features = ["tokio", "tcp", "noise", "yamux", "mdns", "floodsub", "macros"] }
tokio = { version = "1", features = ["full"] }
futures = "0.3"
