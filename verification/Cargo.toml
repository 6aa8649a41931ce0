[package]
name = "slim_core"
version = "0.1.0"
edition = "2021"
publish = false

[dependencies]
async-trait = "=0.1.92"
futures-util = "=0.3.34"
httpdate = "=1.0.3"
libc = "=0.2.191"
reqwest = { version = "=0.12.28", default-features = false, features = ["http2", "json", "rustls-tls", "stream"] }
serde = { version = "=1.0.229", features = ["derive"] }
serde_json = "=1.0.154"
sha2 = "=0.10.9"
tokio = { version = "=1.54.1", features = ["io-util", "macros", "net", "process", "rt-multi-thread", "sync", "time"] }
