[package]
name = "norma"
version = "0.1.0"
edition = "2021"
publish = false

[dependencies]
ast-grep-core = "=0.45.3"
ast-grep-config = "=0.45.3"
ast-grep-language = "=0.45.3"
serde_yaml = "0.9"
chrono = { version = "0.4", features = ["serde"] }
anyhow = "1"
clap = { version = "4", features = ["derive"] }
serde = { version = "1", features = ["derive"] }
serde_json = "1"
schemars = "*"
rmcp = { version = "*", features = ["server", "transport-io", "macros", "schemars"] }
sqlx = { version = "*", default-features = false, features = ["sqlite", "runtime-tokio", "chrono"] }
tokio = { version = "1", features = ["full"] }
tracing = "0.1"
tracing-subscriber = "0.3"
