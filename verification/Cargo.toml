[package]
name = "log_viewer"
version = "0.1.0"
edition = "2021"
publish = false

[dependencies]
petgraph = "=0.8.3"
tokio = { version = "=1.53.2", features = ["process", "io-util", "rt-multi-thread", "macros", "sync", "fs", "time"] }
clap = { version = "=4.6.7", features = ["derive"] }
chrono = "=0.4.45"
