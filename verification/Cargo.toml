[package]
name = "tolstoy"
version = "0.1.0"
edition = "2021"
publish = false

[dependencies]
futures = "0.1"
hyper = "0.11"
linefeed = "*"
tokio-core = "0.1"
uuid = { version = "*", features = ["v4"] }

[dev-dependencies]
serde_json = "*"
