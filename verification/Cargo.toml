[package]
name = "nd_rust"
version = "0.1.0"
edition = "2021"
publish = false

[dependencies]
axum = "*"
config = "*"
ipnetwork = { version = "*", features = ["serde"] }
oid = "*"
serde = { version = "*", features = ["derive"] }
serde_json = "*"
snmp = "*"
sqlx = { version = "*", features = ["runtime-tokio", "postgres", "uuid", "time"] }
thiserror = "*"
time = { version = "*", features = ["serde"] }
tokio = { version = "*", features = ["full"] }
tower-http = { version = "*", features = ["trace", "cors"] }
tracing = "*"
tracing-subscriber = { version = "*", features = ["env-filter"] }
url = "*"
uuid = { version = "*", features = ["serde", "v4"] }
