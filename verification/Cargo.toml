[package]
name = "koe_asr"
version = "0.1.0"
edition = "2021"
publish = false

[dependencies]
async-trait = "0.1"
base64 = "0.22"
futures-util = "0.3"
serde_json = "1"
tokio = { version = "1", features = ["net", "time"] }
tokio-tungstenite = { version = "0.26", features = ["rustls-tls-webpki-roots"] }
uuid = { version = "1", features = ["v4"] }
