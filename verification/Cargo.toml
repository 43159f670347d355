[package]
name = "aoe2_tournament_bot"
version = "0.1.0"
edition = "2021"
publish = false

[dependencies]
regex = "=1.13.1"
chrono = "=0.4.45"
anyhow = "=1.0.104"
backon = "=1.6.0"
figment = { version = "=0.10.19", features = ["toml", "env"] }
gcloud-storage = "=1.3.0"
google-sheets4 = { version = "=7.0.0", features = ["yup-oauth2-service-account"] }
yup-oauth2 = "=12.1.2"
rustls = "=0.23.46"
serde = { version = "=1.0.229", features = ["derive"] }
serde_json = "=1.0.154"
serenity = "=0.12.5"
tokio = { version = "=1.54.1", features = ["rt-multi-thread", "macros", "sync"] }
tracing = "=0.1.44"
tracing-subscriber = { version = "=0.3.23", features = ["json", "env-filter"] }
