[package]
name = "relay_core"
version = "0.1.0"
edition = "2021"
publish = false

[dependencies]
serde = { version = "=1.0.229", features = ["derive"] }
serde_json = "=1.0.154"
thiserror = "=2.0.21"
tokio = { version = "=1.54.1", features = ["full"] }
tracing = "=0.1.44"
tracing-subscriber = { version = "=0.3.23", features = ["env-filter"] }
tracing-appender = "=0.2.5"
notify = "=8.2.1"
fs2 = "=0.4.3"
libc = "=0.2.191"
async-trait = "=0.1.92"
objc2-core-foundation = "=0.3.2"
objc2-io-kit = "=0.3.2"
objc2-foundation = "=0.3.2"
objc2-app-kit = "=0.3.2"
