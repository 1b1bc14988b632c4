[package]
name = "tonic_xds"
version = "0.1.0"
edition = "2021"
publish = false

[dependencies]
arc-swap = "1"
bytes = "1"
dashmap = "6"
fastrand = "2"
futures-core = "0.3"
http = "1"
http-body = "1"
http-body-util = "0.1"
indexmap = "2"
pin-project-lite = "0.2"
rand = { version = "0.9", features = ["small_rng"] }
thiserror = "2"
tokio = { version = "1", features = ["sync", "rt", "time", "net"] }
tokio-stream = { version = "0.1", features = ["net", "sync"] }
tower = { version = "0.5", features = ["buffer", "discover", "load", "ready-cache", "util"] }
tracing = "0.1"
