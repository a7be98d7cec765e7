[package]
name = "kook_onebot"
version = "0.1.0"
edition = "2021"
publish = false

[dependencies]
base64 = "0.21"
flate2 = "1"
futures-util = { version = "0.3", features = ["sink"] }
hex = "0.4"
hmac = "0.12"
sha1 = "0.10"
hyper = { version = "0.14", features = ["full"] }
hyper-tungstenite = "0.11"
lazy_static = "1"
log = "0.4"
regex = "1"
reqwest = { version = "0.11", default-features = false, features = ["rustls-tls", "multipart"] }
scopeguard = "1"
serde_json = "1"
time = { version = "0.3", features = ["formatting", "local-offset", "macros"] }
tokio = { version = "1", features = ["full"] }
tokio-tungstenite = { version = "0.20", features = ["rustls-tls-webpki-roots"] }
tungstenite = "0.20"
tracing = "0.1"
tracing-subscriber = { version = "0.3", features = ["time", "local-time"] }
url = "2"
urlencoding = "2"
uuid = { version = "1", features = ["v4"] }
