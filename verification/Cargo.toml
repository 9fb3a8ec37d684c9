[package]
name = "stonkscollect"
version = "0.1.0"
edition = "2021"
publish = false

[dependencies]
chrono = { version = "0.4", default-features = false, features = ["clock", "std"] }
cron = "*"
serde = { version = "1", features = ["derive"] }
serde_json = "1"
sha2 = "0.10"
argon2 = { version = "0.5", features = ["std"] }
rand = "0.8"
rss = { version = "2", default-features = false }
scraper = { version = "*", default-features = false }
thiserror = "1"
tokio = { version = "1", features = ["rt-multi-thread", "macros", "time", "signal", "sync"] }
axum = "0.7"
reqwest = { version = "0.12", default-features = false, features = ["rustls-tls", "cookies"] }
sqlx = { version = "0.8", default-features = false, features = ["sqlite", "runtime-tokio", "chrono", "macros", "migrate"] }
futures = "0.3"
async-trait = "0.1"
tracing = "0.1"
tracing-subscriber = { version = "0.3", features = ["env-filter"] }
clap = { version = "4", features = ["derive"] }
dotenvy = "0.15"
arrow = { version = "*", default-features = false }
parquet = { version = "*", default-features = false, features = ["arrow"] }
