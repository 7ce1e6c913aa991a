[package]
name = "cfab"
version = "0.1.0"
edition = "2021"
publish = false

[dependencies]
clap = { version = "=4.6.7", features = ["derive"] }
ipnetwork = "=0.21.1"
netlink-packet-core = "=0.9.0"
netlink-packet-route = "=0.33.0"
netlink-sys = "=0.9.0"
nix = { version = "=0.31.3", features = ["fs", "process", "signal", "net", "socket", "user"] }
prometheus-client = "=0.25.2"
schemars = "=1.2.3"
serde = { version = "=1.0.229", features = ["derive"] }
serde_json = { version = "=1.0.154", features = ["preserve_order"] }
socket2 = { version = "=0.6.5", features = ["all"] }
thiserror = "=2.0.21"
tokio = { version = "=1.54.1", features = ["full"] }
toml = "*"
tracing = "=0.1.44"
tracing-subscriber = { version = "=0.3.23", features = ["env-filter"] }
yang5 = "*"
