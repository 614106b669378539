[package]
name = "raid_tracker"
version = "0.1.0"
edition = "2021"
publish = false

[dependencies]
time = "*"
axum = "*"
http = "*"
serde = { version = "*", features = ["derive"] }
serde_json = "*"
tokio = { version = "*", features = ["rt-multi-thread", "macros", "net"] }
tower-http = { version = "*", features = ["trace"] }
tracing = "*"
tracing-subscriber = { version = "*", features = ["env-filter", "fmt"] }
