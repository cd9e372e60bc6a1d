[package]
name = "hyperpanes_core"
version = "0.1.0"
edition = "2021"
publish = false

[dependencies]
directories = "=6.0.0"
libc = "=0.2.191"
serde = { version = "=1.0.229", features = ["derive"] }
serde_json = { version = "=1.0.154", features = ["preserve_order"] }
tokio = { version = "=1.54.1", default-features = false, features = ["rt", "rt-multi-thread", "sync", "time"] }
uuid = { version = "=1.29.0", features = ["v4"] }
