[package]
name = "idem"
version = "0.1.0"
edition = "2021"
publish = false

[dependencies]
clap = { version = "=3.0.0-beta.2", default-features = false, features = ["std"] }
opentelemetry = "0.17"
opentelemetry-datadog = "0.5"
