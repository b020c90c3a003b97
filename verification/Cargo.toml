[package]
name = "jrow_server"
version = "0.1.0"
edition = "2021"
publish = false

[dependencies]
serde = { version = "=1.0.229", features = ["derive"] }
serde_json = "=1.0.154"
tokio = { version = "=1.54.1", features = ["full"] }
tokio-tungstenite = "=0.21.0"
futures = "=0.3.34"
sled = "=0.34.7"
bincode = "=1.3.3"
async-trait = "=0.1.92"
thiserror = "=1.0.69"
tracing = "=0.1.44"
opentelemetry = { version = "=0.27.1", features = ["metrics"] }
anyhow = "1"
clap = { version = "4", features = ["derive"] }
toml = "0.8"
tera = "1"
