[package]
name = "rust_npm_host"
version = "0.1.0"
edition = "2021"
publish = false

[dependencies]
csv = "=1.4.0"
serde = { version = "=1.0.229", features = ["derive"] }
serde_json = "=1.0.151"
chrono = { version = "=0.4.45", features = ["serde"] }
tokio = { version = "=1.53.2", features = ["rt-multi-thread", "macros", "time"] }
thirtyfour = "=0.37.5"
sqlx = { version = "=0.9.0", features = ["runtime-tokio", "postgres", "chrono", "json"] }
