[package]
name = "fuelscan"
version = "0.1.0"
edition = "2021"
publish = false

[dependencies]
anyhow = "1"
diesel = { version = "2", features = ["postgres", "r2d2"] }
flume = "0.11"
fuel-core-client = "0.18"
fuel-core-types = "0.18"
futures = "0.3"
rayon = "1"
serde_json = "1"
thiserror = "1"
tokio = { version = "1", features = ["full"] }
tracing = "0.1"
