[package]
name = "indexref"
version = "0.1.0"
edition = "2021"
publish = false

[dependencies]
chrono = "0.4"
url = "2"
scraper = "0.17"
sea-orm = { version = "0.12", default-features = false, features = ["macros", "with-json", "with-chrono"] }
sea-orm-migration = { version = "0.12", default-features = false }
axum = "0.6"
hyper = { version = "0.14", features = ["client", "http1"] }
tokio = { version = "1", features = ["full"] }
tokio-stream = "0.1"
futures = "0.3"
serde = { version = "1", features = ["derive"] }
serde_json = "1"
envy = "0.4"
dotenvy = "0.15"
eyre = "0.6"
color-eyre = "0.6"
tracing = "0.1"
tracing-subscriber = { version = "0.3", features = ["env-filter"] }
notify = "6"
notify-debouncer-mini = "0.4"
walkdir = "2"
sha256 = "1"
thiserror = "1"
regex = "1"
yaserde = "0.8"
yaserde_derive = "0.8"
