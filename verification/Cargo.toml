[package]
name = "better_fetch"
version = "0.1.0"
edition = "2021"
publish = false

[dependencies]
url = "=2.5.8"
percent-encoding = "=2.3.2"
base64 = "=0.22.1"
fastrand = "=2.5.0"
httpdate = "=1.0.3"
indexmap = "=2.14.2"
http = "=1.5.0"
bytes = "=1.12.1"
serde = { version = "=1.0.229", features = ["derive"] }
serde_json = "=1.0.154"
async-trait = "=0.1.92"
tracing = "=0.1.44"
thiserror = "=2.0.21"
tokio = { version = "=1.54.1", features = ["time", "sync", "macros", "rt", "fs", "io-util"] }
tokio-util = "=0.7.20"
futures-util = "=0.3.34"
jsonschema = { version = "=0.60.2", default-features = false }
reqwest = { version = "=0.12.28", default-features = false, features = ["stream"] }
tower = { version = "=0.5.3", features = ["util", "limit", "buffer", "timeout"] }
schemars = "=0.8.22"
