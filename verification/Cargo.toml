[package]
name = "faber"
version = "0.1.0"
edition = "2021"
publish = false

[dependencies]
base64 = "=0.22.1"
serde_json = "=1.0.154"
sha2 = "=0.10.9"
tar = "=0.4.46"
url = "=2.5.8"
uuid = { version = "=1.29.0", features = ["v4", "v7", "serde"] }
axum = { version = "=0.8.9", features = ["ws"] }
chrono = { version = "=0.4.45", features = ["serde"] }
diesel = { version = "=2.2.12", default-features = false, features = ["32-column-tables", "postgres_backend", "chrono", "uuid", "serde_json"] }
diesel-async = { version = "=0.5.2", features = ["postgres", "deadpool"] }
dotenvy = "=0.15.7"
futures = "=0.3.34"
rand = "=0.8.8"
reqwest = { version = "=0.12.28", default-features = false, features = ["json", "stream"] }
serde = { version = "=1.0.229", features = ["derive"] }
tokio = { version = "=1.54.1", features = ["full"] }
tokio-stream = { version = "=0.1.19", features = ["sync"] }
tower-http = { version = "=0.6.11", features = ["cors", "trace"] }
tracing = "=0.1.44"
tracing-subscriber = { version = "=0.3.23", features = ["env-filter"] }
