[package]
name = "brztek"
version = "0.1.0"
edition = "2021"
publish = false

[dependencies]
regex = "1"
url = "2"
rand = "0.8"
time = "0.3"
image = { version = "0.24", default-features = false, features = ["png"] }
poise = "0.6"
sqlx = { version = "0.7", default-features = false, features = ["sqlite", "runtime-tokio", "migrate"] }
reqwest = { version = "0.11", default-features = false, features = ["json", "rustls-tls"] }
tokio = { version = "1", features = ["macros", "rt-multi-thread"] }
serde = { version = "1", features = ["derive"] }
serde_json = "1"
toml = "0.8"
dotenvy = "0.15"
tracing = "0.1"
tracing-subscriber = { version = "0.3", features = ["env-filter"] }
tracing-appender = "0.2"
anyhow = "1"
