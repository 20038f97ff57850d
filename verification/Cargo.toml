[package]
name = "mini_redis"
version = "0.1.0"
edition = "2021"
publish = false

[dependencies]
anyhow = "=1.0.104"
lazy_static = "=1.5.1"
pilota = "=0.13.1"
serde = { version = "=1.0.229", features = ["derive"] }
serde_json = "=1.0.154"
tokio = { version = "=1.54.1", features = ["rt-multi-thread", "macros"] }
tracing = "=0.1.44"
tracing-subscriber = "=0.3.23"
volo = "=0.12.4"
volo-thrift = "=0.12.7"
