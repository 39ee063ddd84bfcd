[package]
name = "nebula"
version = "0.1.0"
edition = "2021"
publish = false

[dependencies]
anyhow = "=1.0.104"
axum = "=0.8.9"
chrono = { version = "=0.4.45", features = ["serde"] }
dotenvy = "=0.15.7"
hex = "=0.4.3"
pulldown-cmark = "=0.13.4"
redis = { version = "=1.7.1", features = ["tokio-comp", "connection-manager"] }
reqwest = { version = "=0.13.5", default-features = false, features = ["json"] }
serde = { version = "=1.0.229", features = ["derive"] }
serde_json = "=1.0.151"
sha2 = "=0.11.0"
syntect = "=5.3.0"
tokio = { version = "=1.53.2", features = ["full"] }
tower-http = { version = "=0.6.11", features = ["fs"] }
