[package]
name = "kuberift"
version = "0.1.0"
edition = "2021"
publish = false

[dependencies]
itertools = "=0.13.0"
ratatui = "=0.28.1"
replace_with = "=0.1.8"
eyre = "0.6"
tokio = { version = "=1.54.1", features = ["rt", "rt-multi-thread", "macros", "sync", "time", "io-util", "io-std"] }
tokio-util = { version = "0.7", features = ["io"] }
futures = "0.3"
prometheus = { version = "0.13", default-features = false }
lazy_static = "1"
tracing = "0.1"
kube = { version = "=3.1.0", features = ["runtime"] }
k8s-openapi = { version = "=0.27.1", features = ["latest"] }
serde = "1"
async-trait = "0.1"
clap = { version = "4", features = ["derive"] }
humantime = "2"
crossterm = { version = "=0.28.1", features = ["event-stream"] }
