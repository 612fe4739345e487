[package]
name = "iot_pipeline"
version = "0.1.0"
edition = "2021"
publish = false

[dependencies]
anyhow = "*"
axum = { version = "*", features = ["ws"] }
chrono = { version = "*", features = ["serde"] }
dotenvy = "*"
paho-mqtt = { version = "*", default-features = false, features = ["bundled"] }
serde = { version = "*", features = ["derive"] }
serde_json = "*"
sqlx = { version = "*", default-features = false, features = ["runtime-tokio", "postgres", "chrono"] }
tokio = { version = "*", features = ["rt-multi-thread", "macros", "net", "time", "sync"] }
uuid = { version = "*", features = ["v4"] }
