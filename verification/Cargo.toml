[package]
name = "metrics_rs_dashboard_actix"
version = "0.1.0"
edition = "2021"
publish = false

[dependencies]
actix-web = { version = "4", default-features = false, features = ["macros"] }
anyhow = "1"
log = "0.4"
log-once = "*"
metrics = "*"
metrics-exporter-prometheus = { version = "*", default-features = false }
metrics-util = "*"
mime_guess = "2"
rust-embed = "8"
serde_json = "1"
tokio = { version = "1", features = ["rt", "time"] }
