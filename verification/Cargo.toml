[package]
name = "task_tester"
version = "0.1.0"
edition = "2021"
publish = false

[dependencies]
chrono = "=0.4.45"
clap = { version = "=4.6.7", features = ["derive"] }
color-eyre = "=0.6.5"
env_logger = "=0.11.11"
futures = "=0.3.34"
glob = "=0.3.4"
indicatif = "=0.18.6"
indicatif-log-bridge = "=0.2.3"
log = "=0.4.34"
tokio = { version = "=1.54.1", features = ["full"] }
