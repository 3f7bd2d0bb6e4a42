[package]
name = "rustafari"
version = "0.1.0"
edition = "2021"
publish = false

[dependencies]
axum = "*"
serde = { version = "*", features = ["derive"] }
tokio = { version = "*", features = ["macros", "net", "rt-multi-thread", "signal"] }
tracing = "*"
tracing-subscriber = "*"
