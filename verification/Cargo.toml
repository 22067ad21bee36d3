[package]
name = "d2s"
version = "0.1.0"
edition = "2021"
publish = false

[dependencies]
anyhow = "=1.0.104"
bytes = "=1.12.1"
clap = { version = "=4.6.7", features = ["derive"] }
dirs = "=6.0.0"
http-body-util = "=0.1.5"
hyper = { version = "=1.12.0", features = ["client", "http1", "server"] }
hyper-util = { version = "=0.1.21", features = ["client", "client-legacy", "http1", "tokio"] }
nix = { version = "=0.31.3", features = ["process", "sched", "signal", "term"] }
rand = "=0.10.3"
russh = { version = "=0.60.3", default-features = false, features = ["flate2", "ring", "rsa"] }
serde = { version = "=1.0.229", features = ["derive"] }
serde_json = "=1.0.154"
socket2 = "=0.6.5"
tokio = { version = "=1.54.1", features = ["full"] }
toml = "*"
tower-service = "=0.3.3"
tracing-subscriber = { version = "=0.3.23", features = ["env-filter"] }
