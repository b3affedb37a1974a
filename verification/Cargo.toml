[package]
name = "tonggeret-dashboard"
version = "0.1.0"
edition = "2021"
publish = false

[dependencies]
axum = "0.8"
prometheus-parse = "=0.2.5"
reqwest = { version = "0.12", default-features = false, features = ["rustls-tls"] }
serde = { version = "1", features = ["derive"] }
serde_json = "=1.0.154"
thiserror = "2"
tokio = { version = "1", features = ["full"] }
toml = "0.8"
tonggeret = { version = "=0.3.1", features = ["fjall-backend"] }
tower = { version = "0.5", features = ["util"] }
tower-http = { version = "0.6", features = ["fs"] }
tracing = "0.1"
tracing-subscriber = { version = "0.3", features = ["env-filter"] }
