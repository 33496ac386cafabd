[package]
name = "beam"
version = "0.1.0"
edition = "2021"
publish = false

[dependencies]
constant_time_eq = "0.3"
sha2 = "0.10"
percent-encoding = "2"
ipnet = "2"
rand = "0.9"
chrono = "0.4"
serde = { version = "1", features = ["derive"] }
serde_json = "1"
axum = "0.8"
axum-extra = { version = "0.10", features = ["cookie"] }
tokio = { version = "1", features = ["full"] }
tower-http = { version = "0.6", features = ["fs", "trace"] }
tracing = "0.1"
dotenvy = "0.15"
reqwest = { version = "0.12", default-features = false, features = ["json"] }
