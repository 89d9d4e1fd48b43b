[package]
name = "path_rpc"
version = "0.1.0"
edition = "2021"
publish = false

[dependencies]
antidote = "1"
bytes = "0.4"
chrono = "0.4"
failure = "0.1"
futures = "0.1"
http = "0.1"
httparse = "1"
hyper = "0.11"
lazy_static = "1"
num_cpus = "1"
petgraph = "0.4"
serde = "1"
serde_derive = "1"
serde_json = "1"
tokio-core = "0.1"
tokio-io = "0.1"
