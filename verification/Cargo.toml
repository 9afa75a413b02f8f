[package]
name = "foundations_telemetry"
version = "0.1.0"
edition = "2021"
publish = false

[dependencies]
hex = "=0.4.3"
governor = "=0.6.3"
libc = "=0.2.191"
serde = { version = "=1.0.229", features = ["derive"] }
slab = "=0.4.12"
cf-rustracing = "=1.4.1"
cf-rustracing-jaeger = "=1.3.0"
percent-encoding = "=2.3.2"
matchit = "0.8"
