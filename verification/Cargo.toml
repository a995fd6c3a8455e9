[package]
name = "tus_core"
version = "0.1.0"
edition = "2021"
publish = false

[dependencies]
base64 = "0.22"
uuid = { version = "1", features = ["v4"] }
axum = "0.6"
http = "0.2"
hyper = "0.14"
http-body = "0.4"
tower = "0.4"
futures = "0.3"
bytes = "1"
async-trait = "0.1"
serde = { version = "1", features = ["derive"] }
serde_json = "1"
tokio = { version = "1", features = ["rt-multi-thread", "macros"] }
