[package]
name = "miden-node-store"
version = "0.1.0"
edition = "2021"
publish = false

[dependencies]
anyhow = "=1.0.104"
fs-err = "=3.3.2"
miden-protocol = { version = "=0.14.5", features = ["testing"] }
prost = { version = "=0.14.4", default-features = false }
thiserror = "=2.0.21"
tokio = { version = "=1.54.1", features = ["sync", "rt", "time", "macros", "fs"] }
tokio-stream = { version = "=0.1.19", features = ["sync"] }
tracing = "=0.1.44"
url = "=2.5.8"

[dev-dependencies]
miden-standards = "=0.14.5"
