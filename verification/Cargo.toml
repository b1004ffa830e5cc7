[package]
name = "dev_tunnel"
version = "0.1.0"
edition = "2021"
publish = false

[dependencies]
clap = { version = "=4.6.7", features = ["derive"] }
futures-util = "=0.3.34"
pnet = "=0.35.0"
tokio = { version = "=1.53.2", features = ["macros", "net", "rt", "rt-multi-thread", "sync", "time"] }
tokio-tungstenite = "=0.30.0"
