[package]
name = "timestore"
version = "0.1.0"
edition = "2021"
publish = false

[dependencies]
chrono = "*"
uuid = { version = "*", features = ["v4"] }
serde = { version = "*", features = ["derive"] }
serde_json = "*"
flate2 = "*"
tokio = { version = "*", features = ["rt-multi-thread", "sync", "time", "macros"] }
threadpool = "*"
num_cpus = "*"
