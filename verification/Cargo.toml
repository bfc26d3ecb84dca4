[package]
name = "filesync"
version = "0.1.0"
edition = "2021"
publish = false

[dependencies]
blake3 = "=1.8.7"
bromberg_sl2 = "=0.7.0"
chrono = "=0.4.45"
futures = "=0.3.34"
hydroflow = { version = "=0.10.0", default-features = false, features = ["macros"] }
serde = { version = "=1.0.229", features = ["derive"] }
tokio = { version = "=1.54.1", features = ["fs", "io-util", "macros", "net", "rt", "rt-multi-thread"] }
tokio-util = "=0.7.19"
