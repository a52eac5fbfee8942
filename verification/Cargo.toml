[package]
name = "nodedb_core"
version = "0.1.0"
edition = "2021"
publish = false

[dependencies]
futures = "0.3"
libc = "0.2"
loro = "1"
memmap2 = "0.9"
pgwire = { version = "*", default-features = false, features = ["server-api"] }
serde = { version = "1", features = ["derive"] }
serde_json = "1"
sonic-rs = "*"
thiserror = "2"
tokio = { version = "1", features = ["full"] }
tracing = "0.1"
uuid = { version = "1", features = ["v4"] }

[dev-dependencies]
tempfile = "3"
