[package]
name = "dub_server"
version = "0.1.0"
edition = "2021"
publish = false

[dependencies]
serde_json = "=1.0.154"
mime_guess = "=2.0.5"
uuid = { version = "=1.29.0", features = ["v4"] }
axum = { version = "0.8", features = ["multipart"] }
tokio = { version = "=1.54.1", features = ["full"] }
tower-http = { version = "=0.6.11", features = ["fs", "cors"] }
tower = { version = "=0.5.3", features = ["util"] }
futures-util = "=0.3.34"
async-stream = "=0.3.6"
ureq = { version = "=2.12.1", features = ["json"] }
zip = { version = "=2.6.1", default-features = false, features = ["deflate"] }
hound = "=3.5.1"
anyhow = "=1.0.104"
tracing = "=0.1.44"
tracing-subscriber = "=0.3.23"
sysinfo = { version = "=0.33.1", default-features = false, features = ["system"] }
