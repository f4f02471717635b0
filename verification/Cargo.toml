[package]
name = "netiso_srv"
version = "0.1.0"
edition = "2021"
publish = false

[dependencies]
glob = "=0.3.4"
tokio = { version = "=1.54.1", features = ["fs", "io-util", "net", "rt-multi-thread", "macros"] }

[dev-dependencies]
binrw = "=0.15.2"
