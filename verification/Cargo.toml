[package]
name = "launcher"
version = "0.1.0"
edition = "2021"
publish = false

[dependencies]
anyhow = "=1.0.104"
libc = "=0.2.191"
reqwest = { version = "=0.12.28", default-features = false, features = ["rustls-tls"] }
rlimit = "=0.11.0"
tokio = { version = "=1.54.1", features = ["full"] }
tracing = "=0.1.44"
tracing-subscriber = { version = "=0.3.23", features = ["env-filter"] }

[dev-dependencies]
regex = "=1.13.1"
