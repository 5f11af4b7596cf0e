[package]
name = "polixy"
version = "0.1.0"
edition = "2021"
publish = false

[dependencies]
ipnet = "=2.12.2"
tokio = { version = "=1.53.2", features = ["full"] }
futures = "=0.3.34"
anyhow = "=1.0.104"
structopt = "=0.3.26"
tracing = "0.1"
tracing-subscriber = "0.3"
drain = "=0.1.2"
async-stream = "=0.3.6"
async-trait = "=0.1.92"
linkerd2-proxy-api = { version = "=0.20.0", features = ["inbound"] }
tonic = "=0.14.6"
prost-types = "=0.14.4"
serde = { version = "1", features = ["derive"] }
serde_json = "1"
