[package]
name = "sol_rpc_router"
version = "0.1.0"
edition = "2021"
publish = false

[dependencies]
serde_json = "1"
arc-swap = "1"
axum = "0.7"
dotenv = "0.15"
futures-util = "0.3"
http-body-util = "0.1"
hyper-tls = "0.6"
hyper-util = { version = "0.1", features = ["client", "client-legacy", "http1", "tokio"] }
metrics = "0.23"
serde = { version = "1", features = ["derive"] }
tokio = { version = "1", features = ["full"] }
tracing = "0.1"
tracing-subscriber = "0.3"
