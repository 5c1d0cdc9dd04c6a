[package]
name = "railway_rs"
version = "0.1.0"
edition = "2021"
publish = false

[dependencies]
chrono = { version = "0.4", default-features = false, features = ["clock", "std"] }
regex = "1"
serde = { version = "1", features = ["derive"] }
serde_json = "1"
md-5 = "0.10"
hex = "0.4"
base64 = "0.22"
aes = "0.8"
cbc = "0.1"
tokio = { version = "1", features = ["full"] }
axum = "0.7"
reqwest = { version = "0.12", default-features = false, features = ["json", "stream"] }
tracing = "0.1"
tracing-subscriber = { version = "0.3", features = ["env-filter"] }
tracing-appender = "0.2"
futures = "0.3"
bytes = "1"
urlencoding = "2"
async-trait = "0.1"
prometheus = { version = "0.13", default-features = false }
