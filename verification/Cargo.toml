[package]
name = "coil"
version = "0.1.0"
edition = "2021"
publish = false

[dependencies]
libp2p = { version = "=0.52.4", default-features = false, features = ["gossipsub", "mdns", "noise", "tcp", "tokio", "yamux", "macros"] }
tokio = { version = "1", features = ["rt-multi-thread", "macros", "io-util", "io-std", "net", "signal", "sync", "time", "fs"] }
futures = "0.3"
color-eyre = "0.6"
tracing = "0.1"
tracing-subscriber = { version = "0.3", features = ["env-filter"] }
bytes = "1"
tokio-stream = "0.1"
tokio-util = { version = "0.7", features = ["codec"] }
