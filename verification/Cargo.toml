[package]
name = "load_s3_agent"
version = "0.1.0"
edition = "2021"
publish = false

[dependencies]
anyhow = "=1.0.104"
aws-config = "=1.12.0"
aws-sdk-s3 = "=1.152.0"
# aws-config 1.12 does not compile against aws-types 1.7: hold the 1.6 line
aws-types = "=1.6.0"
axum = "=0.8.9"
axum-extra = { version = "=0.10.3", features = ["multipart"] }
base64 = "=0.22.1"
chrono = { version = "=0.4.45", features = ["serde"] }
clickhouse = "=0.13.3"
dotenvy = "=0.15.7"
headers = "=0.4.2"
once_cell = "=1.21.4"
reqwest = { version = "=0.12.28", features = ["json"] }
serde = { version = "=1.0.229", features = ["derive"] }
serde_json = "=1.0.154"
tokio = { version = "=1.54.1", features = ["full"] }
tower-http = { version = "=0.6.11", features = ["cors", "limit"] }
