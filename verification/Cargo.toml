[package]
name = "lux_patcher"
version = "0.1.0"
edition = "2021"
publish = false

[dependencies]
argh = "=0.1.19"
assembly-pack = { version = "=0.5.2", features = ["sd0", "pki", "md5sum"] }
assembly-xml = "=0.3.0"
color-eyre = "=0.6.5"
futures-util = "=0.3.34"
log = "=0.4.34"
pretty_env_logger = "=0.5.0"
reqwest = { version = "=0.13.5", default-features = false, features = ["stream"] }
terminal-menu = "=3.1.0"
tokio = { version = "=1.53.2", features = ["rt-multi-thread", "macros", "fs", "io-util"] }
tokio-stream = "=0.1.19"
tokio-util = { version = "=0.7.19", features = ["io"] }
