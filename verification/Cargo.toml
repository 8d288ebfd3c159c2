[package]
name = "sqelf"
version = "0.1.0"
edition = "2021"
publish = false

[dependencies]
anyhow = "1"
bytes = "1"
chrono = "0.4"
futures = "0.3"
humantime = "2"
lazy_static = "1"
libflate = "2"
rust_decimal = "1"
rustls-pemfile = "1"
serde = { version = "1", features = ["derive"] }
serde_json = { version = "1", features = ["float_roundtrip"] }
tokio = { version = "1", features = ["io-util", "macros", "net", "rt", "rt-multi-thread", "signal", "sync", "time"] }
tokio-rustls = "0.24"
tokio-util = { version = "0.7", features = ["codec", "net"] }
