[package]
name = "casper_node"
version = "0.1.0"
edition = "2021"
publish = false

[dependencies]
anyhow = "1"
bytes = "1"
either = "1"
itertools = "0.10"
num = "0.4"
num-rational = "0.4"
rand = "0.8"
serde = { version = "1", features = ["derive"] }
tempfile = "3"
thiserror = "1"
tokio = { version = "1", features = ["time"] }
tracing = "0.1"
