[package]
name = "xplanet"
version = "0.1.0"
edition = "2021"
publish = false

[dependencies]
anyhow = "1"
itertools = "0.14"
rand = { version = "0.9", features = ["small_rng"] }
salvo = { version = "*", features = ["tower-compat"] }
serde = { version = "1", features = ["derive"] }
serde_json = "1"
socketioxide = { version = "*", features = ["state"] }
tokio = { version = "1", features = ["full"] }
tower = "0.5"
tower-http = { version = "0.6", features = ["cors"] }
tracing = "0.1"
tracing-subscriber = "0.3"
uuid = { version = "1", features = ["v4"] }
