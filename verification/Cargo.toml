[package]
name = "inventory_core"
version = "0.1.0"
edition = "2021"
publish = false

[dependencies]
chrono = "*"
uuid = { version = "*", features = ["v4", "serde"] }
actix-web = "*"
tokio = { version = "*", features = ["rt-multi-thread", "macros"] }
sqlx = { version = "*", default-features = false, features = ["runtime-tokio", "postgres", "uuid", "time"] }
rdkafka = "*"
serde = { version = "*", features = ["derive"] }
serde_json = "*"
dotenvy = "*"
async-trait = "*"
prometheus = "*"
metrics-exporter-prometheus = "*"
time = { version = "*", features = ["serde-well-known"] }
tonic = "*"
tracing-subscriber = { version = "*", features = ["env-filter"] }
tracing-bunyan-formatter = "*"
tracing-actix-web = "*"
