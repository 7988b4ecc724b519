[package]
name = "elfo"
version = "0.1.0"
edition = "2021"
publish = false

[dependencies]
anyhow = "1"
derive_more = "0.99"
futures = "0.3"
humantime-serde = "1"
parking_lot = "0.12"
serde = { version = "1", features = ["derive"] }
serde_json = "1"
slotmap = "1"
smartstring = { version = "1", features = ["serde"] }
strum = { version = "0.26", features = ["derive"] }
tokio = { version = "1", features = ["sync", "time", "rt", "rt-multi-thread", "macros"] }
tokio-stream = "0.1"
tracing = "0.1"
warp = { version = "0.3", default-features = false }
