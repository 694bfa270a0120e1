[package]
name = "blockcell"
version = "0.1.0"
edition = "2021"
publish = false

[dependencies]
serde = { version = "1", features = ["derive"] }
serde_json = "1"
sha2 = "0.10"
ed25519-dalek = "2"
hex = "0.4"
base64 = "0.22"
md5 = "0.7"
uuid = { version = "1", features = ["v4"] }
chrono = "0.4"
scraper = "*"
htmd = "*"
urlencoding = "2"
cron = "*"
tokio = { version = "1", features = ["full"] }
reqwest = { version = "0.12", default-features = false, features = ["json", "multipart"] }
tokio-tungstenite = "0.21"
futures = "0.3"
url = "2"
tracing = "0.1"
anyhow = "1"
qrcode = "0.14"
flate2 = "1"
tar = "0.4"
clap = { version = "4", features = ["derive"] }
hyper = { version = "1", features = ["full"] }
hyper-util = { version = "0.1", features = ["full"] }
http = "1"
http-body-util = "0.1"
bytes = "1"
