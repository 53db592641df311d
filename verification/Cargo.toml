[package]
name = "xfyun-rtasr"
version = "0.1.0"
edition = "2021"
publish = false

[dependencies]
base64 = "0.22"
futures-util = { version = "0.3", features = ["sink"] }
hmac = "0.12"
log = "0.4"
md5 = "0.7"
parking_lot = "0.12"
serde_json = "1"
sha1 = "0.10"
thiserror = "1"
tokio = { version = "1", features = ["macros", "net", "rt", "rt-multi-thread", "sync", "time"] }
tokio-tungstenite = { version = "0.24", features = ["rustls-tls-webpki-roots"] }
urlencoding = "2"
