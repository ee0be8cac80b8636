[package]
name = "starscript"
version = "0.1.0"
edition = "2021"
publish = false

[dependencies]
bson = "2"
chrono = "0.4"
mongodb = "2"
tokio = { version = "1", features = ["full"] }
futures = "0.3"
flume = "0.11"
glob = "0.3"
http = "0.2"
serde = { version = "1", features = ["derive"] }
serde_json = "1"
serde_yaml = "0.9"
spacedust = "*"
dotenv = "0.15"
tracing = "0.1"
tracing-subscriber = { version = "0.3", features = ["env-filter", "fmt"] }
