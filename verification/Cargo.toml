[package]
name = "nodeflow"
version = "0.1.0"
edition = "2021"
publish = false

[dependencies]
reqwest = { version = "0.12", default-features = false }
tokio = { version = "1", features = ["rt-multi-thread"] }
async-trait = "0.1"
futures = "0.3"
log = "0.4"
thiserror = "1"
serde_json = "1"
