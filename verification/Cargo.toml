[package]
name = "glow2whatever"
version = "0.1.0"
edition = "2021"
publish = false

[dependencies]
actix-web = { version = "4", default-features = false, features = ["macros"] }
anyhow = "1"
buttplug = { version = "7", default-features = false, features = ["client", "serialize-json", "websockets", "tokio-runtime"] }
chrono = { version = "0.4", default-features = false, features = ["std", "serde"] }
clap = { version = "4", features = ["derive"] }
opentelemetry-jaeger = "0.18"
prometheus = "0.13"
rumqttc = { version = "0.20", default-features = false }
sd-notify = "0.4"
serde = { version = "1", features = ["derive"] }
serde_json = "1"
thiserror = "1"
tokio = { version = "1", features = ["macros", "rt-multi-thread", "sync"] }
tracing = "0.1"
tracing-actix-web = "0.7"
tracing-journald = "0.3"
tracing-opentelemetry = "0.19"
tracing-subscriber = { version = "0.3", features = ["env-filter"] }
