[package]
name = "october"
version = "0.1.0"
edition = "2021"
publish = false

[dependencies]
csv = "1"
axum = "*"
tokio = { version = "1", features = ["full"] }
handlebars = "*"
serde = { version = "1", features = ["derive"] }
structopt = "0.3"
tower-http = { version = "*", features = ["fs", "trace"] }
tracing = "0.1"
tracing-subscriber = "0.3"
