[package]
name = "connect"
version = "1.3.0"
edition = "2021"
publish = false

[dependencies]
axum = { version = "0.8", features = ["ws"] }
bytes = "1"
futures-util = "0.3"
hyper = { version = "1", features = ["http1", "server"] }
hyper-util = { version = "0.1", features = ["tokio"] }
nusb = { version = "0.2", features = ["tokio"] }
serde_json = "1"
tokio = { version = "1", features = ["full"] }
tower = "0.5"
