[package]
name = "mavlink_extras"
version = "0.1.0"
edition = "2021"
publish = false

[dependencies]
anyhow = "1"
bytes = "1"
crc-any = "2.4"
futures = "0.3"
mavlink = { version = "0.10", default-features = false, features = ["std", "common", "serde"] }
paw = "1"
serde = { version = "1", features = ["derive"] }
serde_arrays = "0.1"
serde_json = "1"
structopt = { version = "0.3", features = ["paw"] }
tokio = { version = "1", features = ["rt", "macros", "net", "sync", "time", "io-util"] }
tokio-serial = { version = "5.4", default-features = false }
tokio-util = { version = "0.7", features = ["codec", "net"] }
tracing = "0.1"
