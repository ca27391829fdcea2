[package]
name = "plan_ai_core"
version = "0.1.0"
edition = "2021"
publish = false

[dependencies]
anyhow = "=1.0.104"
async-trait = "=0.1.92"
axum = { version = "=0.8.9", default-features = false, features = ["matched-path", "original-uri"] }
chrono = { version = "=0.4.45", default-features = false, features = ["clock", "std", "serde"] }
dashmap = "=6.2.1"
futures-util = { version = "=0.3.34", default-features = false, features = ["std", "io"] }
http = "=1.5.0"
opentelemetry = { version = "=0.31.0", features = ["logs"] }
opentelemetry-http = { version = "=0.31.0", default-features = false }
opentelemetry-otlp = { version = "=0.31.1", default-features = false, features = ["http-proto", "trace", "metrics", "logs", "reqwest-blocking-client"] }
opentelemetry-prometheus = "=0.31.0"
opentelemetry_sdk = { version = "=0.31.0", default-features = false, features = ["trace", "metrics", "logs"] }
prometheus = { version = "=0.14.0", default-features = false }
rocket = { version = "0.5", default-features = false }
schemars = "=1.2.3"
serde = { version = "=1.0.229", features = ["derive"] }
serde_json = "=1.0.154"
sqlx = { version = "=0.8.6", default-features = false, features = ["runtime-tokio", "postgres", "uuid", "chrono", "json"] }
tokio = { version = "=1.54.1", features = ["rt", "sync", "time", "macros"] }
tokio-util = "=0.7.20"
tower-http = { version = "=0.6.11", features = ["trace"] }
tracing = "=0.1.44"
tracing-opentelemetry = { version = "=0.32.1", default-features = false }
tracing-subscriber = { version = "=0.3.23", features = ["env-filter"] }
uuid = { version = "=1.29.0", features = ["v4", "v5", "serde"] }
