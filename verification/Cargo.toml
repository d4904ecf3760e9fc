[package]
name = "airjedi"
version = "0.1.0"
edition = "2021"
publish = false

[dependencies]
serde_json = "=1.0.154"
chrono = "=0.4.45"
crossbeam-channel = "=0.5.17"
async-lock = "=3.5.0"
googleprojection = "=1.2.0"
tokio = { version = "=1.54.1", features = ["rt", "time", "macros"] }
reqwest = { version = "=0.12.28", default-features = false, features = ["blocking", "json"] }
ehttp = { version = "=0.7.2", default-features = false }
