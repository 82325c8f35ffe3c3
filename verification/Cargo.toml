[package]
name = "relay_bench"
version = "0.1.0"
edition = "2021"
publish = false

[dependencies]
clap = { version = "4", features = ["derive"] }
futures-util = "0.3"
parking_lot = "0.12"
tokio = { version = "1", features = ["rt-multi-thread", "net", "time", "macros"] }
tokio-tungstenite = "0.20"
url = "2"
