[package]
name = "stack_diagnostics"
version = "0.1.0"
edition = "2021"
publish = false

[dependencies]
semver = "1"
chrono = { version = "0.4", default-features = false, features = ["std", "clock"] }
serde = { version = "1", features = ["derive"] }
serde_json = "1"
toml = "0.8"
dirs = "5"
anyhow = "1"
tokio = { version = "1", features = ["rt", "rt-multi-thread"] }
