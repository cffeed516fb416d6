[package]
name = "stoopid_logging"
version = "0.1.0"
edition = "2021"
publish = false

[dependencies]
opentelemetry = "0.27"
serde_json = "1"
thiserror = "1"
time = { version = "0.3", features = ["formatting"] }
tracing = "0.1"
tracing-opentelemetry = "0.28"
tracing-subscriber = { version = "0.3", features = ["registry", "fmt", "std"] }
