[package]
name = "pan_registrar"
version = "0.1.0"
edition = "2021"
publish = false

[dependencies]
agentmesh = "*"
axum = "0.7"
base64 = "0.22"
chrono = { version = "0.4", features = ["serde"] }
env_logger = "0.11"
log = "0.4"
postgresql_embedded = "*"
pulldown-cmark = "0.12"
reqwest = { version = "0.12", default-features = false, features = ["json", "rustls-tls"] }
serde = { version = "1", features = ["derive"] }
serde_json = "1"
sha2 = "0.10"
sqlx = { version = "0.8", default-features = false, features = ["runtime-tokio", "postgres", "uuid", "chrono", "json", "macros", "migrate"] }
tokio = { version = "1", features = ["full"] }
tower-http = { version = "0.5", features = ["cors"] }
uuid = { version = "1", features = ["v4", "serde"] }
