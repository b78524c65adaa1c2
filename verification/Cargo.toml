[package]
name = "pact_sse_plugin"
version = "0.1.0"
edition = "2021"
publish = false

[dependencies]
anyhow = "1"
chrono = "0.4"
either = "1"
futures = "0.3"
pact_matching = { version = "=1.2.12", default-features = false, features = ["datetime"] }
pact_models = { version = "=1.3.8", default-features = false, features = ["datetime"] }
prost = "0.13"
prost-types = "0.13"
serde_json = "1"
tokio = { version = "1", features = ["rt-multi-thread", "macros", "net", "sync"] }
tonic = "0.12"
tracing = "0.1"
tracing-subscriber = { version = "0.3", features = ["env-filter"] }
uuid = { version = "1", features = ["v4"] }
