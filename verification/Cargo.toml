[package]
name = "router_monitor"
version = "0.1.0"
edition = "2021"
publish = false

[dependencies]
anyhow = "*"
axum = "*"
clap = { version = "*", features = ["derive"] }
crossbeam = "*"
dns-lookup = "*"
humantime = "*"
ipnetwork = "*"
log = "*"
pnet = "*"
pnet_datalink = "*"
pretty_env_logger = "*"
prometheus-client = "*"
reqwest = { version = "*", default-features = false, features = ["blocking", "json"] }
serde = { version = "*", features = ["derive"] }
serde_json = "*"
tokio = { version = "*", features = ["full"] }
tracing = "*"
ttl_cache = "*"
