[package]
name = "gemini-web2api"
version = "1.1.0"
edition = "2021"
publish = false

[dependencies]
serde_json = "1"
regex = "1"
sha1 = "0.10"
uuid = { version = "1", features = ["v4"] }
form_urlencoded = "1"
http = "1"
serde = { version = "1", features = ["derive"] }
axum = "0.7"
tokio = { version = "1", features = ["full"] }
reqwest = { version = "0.12", default-features = false, features = ["rustls-tls", "stream"] }
clap = { version = "4", features = ["derive"] }
tower-http = { version = "0.5", features = ["cors"] }
futures = "0.3"
async-stream = "0.3"
hex = "0.4"
