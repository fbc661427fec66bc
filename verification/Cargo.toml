[package]
name = "hc_tel"
version = "0.1.0"
edition = "2021"
publish = false

[dependencies]
once_cell = "=1.21.4"
opentelemetry = { version = "=0.18.0", features = ["metrics"] }
tracing = "=0.1.44"
tracing-opentelemetry = "=0.18.0"
tracing-subscriber = "=0.3.23"

[dev-dependencies]
tokio = { version = "1", features = ["rt-multi-thread"] }
