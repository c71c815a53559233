[package]
name = "route_core"
version = "0.1.0"
edition = "2021"
publish = false

[dependencies]
actix-web = "=4.15.0"
bytes = "=1.12.1"
lazy_static = "=1.5.1"
lru = { version = "=0.18.5", default-features = false }
parking_lot = "=0.12.5"
serde = { version = "=1.0.229", features = ["derive"] }
serde_json = "=1.0.151"
simd-json = "=0.18.1"
tokio = { version = "=1.53.2", features = ["sync", "rt-multi-thread", "time", "macros"] }
uuid = { version = "=1.27.0", features = ["v4"] }
