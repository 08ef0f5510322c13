[package]
name = "download_manager_engine"
version = "0.1.0"
edition = "2021"
publish = false

[dependencies]
httpdate = "=1.0.3"
sha2 = "=0.10.9"
uuid = { version = "=1.29.0", features = ["v4"] }
reqwest = { version = "=0.12.28", default-features = false }
time = { version = "=0.3.55", features = ["parsing"] }
tokio = { version = "=1.54.1", features = ["rt", "sync", "time", "macros"] }
serde = { version = "=1.0.229", features = ["derive"] }
serde_json = "=1.0.154"
same-file = "1.0.6"
