[package]
name = "besinveri"
version = "0.1.0"
edition = "2021"
publish = false

[dependencies]
anyhow = "1"
axum = "0.8"
axum-governor = "*"
chrono = { version = "0.4", default-features = false, features = ["now"] }
http = "1"
lazy-limit = "*"
moka = { version = "0.12", features = ["sync"] }
serde = { version = "1", features = ["derive"] }
serde_json = "1"
sqlx = { version = "0.8", default-features = false, features = ["sqlite", "runtime-tokio"] }
tokio = { version = "1", features = ["macros", "rt-multi-thread", "net", "sync"] }
toml = "0.9"
tower = "0.5"
tower-http = { version = "0.6", features = ["normalize-path"] }
tracing = "0.1"
tracing-subscriber = { version = "0.3", features = ["time"] }
