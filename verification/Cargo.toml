[package]
name = "rummage"
version = "0.1.0"
edition = "2021"
publish = false

[dependencies]
ammonia = "=4.2.4"
anyhow = "=1.0.104"
axum = "=0.7.9"
base64 = "=0.22.1"
chrono = "=0.4.45"
clap = { version = "=4.6.7", features = ["derive", "env"] }
dioxus = { version = "=0.6.3", default-features = false, features = ["macro", "html", "signals", "hooks"] }
dioxus-ssr = "=0.6.2"
dotenvy = "=0.15.7"
html-escape = "=0.2.15"
linkify = "=0.10.0"
mail-parser = "=0.11.9"
metrics = "=0.24.6"
metrics-exporter-prometheus = { version = "=0.16.2", default-features = false }
mime_guess = "=2.0.5"
notmuch = "=0.8.1"
regex = "=1.13.1"
rmcp = { version = "=3.8.0", features = ["transport-streamable-http-server"] }
schemars = "=1.2.3"
serde = { version = "=1.0.229", features = ["derive"] }
serde_json = "=1.0.154"
thiserror = "=2.0.21"
tokio = { version = "=1.54.1", features = ["full"] }
tower-http = { version = "=0.6.11", features = ["trace"] }
tracing = "=0.1.44"
tracing-subscriber = { version = "=0.3.23", features = ["env-filter"] }
urlencoding = "=2.1.3"
walkdir = "=2.5.0"
