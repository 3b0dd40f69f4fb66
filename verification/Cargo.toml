[package]
name = "pjson_rs"
version = "0.4.0"
edition = "2021"
publish = false

[dependencies]
axum = { version = "0.8", features = ["ws"] }
tokio = { version = "1", features = ["full"] }
tower = { version = "0.5", features = ["util", "limit"] }
tower-http = { version = "0.6", features = ["cors", "timeout", "trace"] }
hyper-util = { version = "0.1", features = ["server-auto", "tokio", "service"] }
futures = "0.3"
async-stream = "0.3"
async-trait = "0.1"
serde = { version = "1", features = ["derive"] }
serde_json = "1"
sonic-rs = "*"
thiserror = "2"
tracing = "0.1"
hmac = "0.12"
sha2 = "0.10"
subtle = "2"
getrandom = "0.3"
uuid = { version = "1", features = ["v4"] }
urlencoding = "2"
url = "2"
chrono = "0.4"
headers-accept = "*"
mediatype = "*"
bytes = "1"
crossbeam = "0.8"
once_cell = "1"
typed-arena = "2"
tokio-tungstenite = "*"
metrics-exporter-prometheus = { version = "*", default-features = false }
jsonwebtoken = "*"
