[package]
name = "aidms-core"
version = "0.1.0"
edition = "2021"
publish = false

[dependencies]
zip = { version = "2", default-features = false, features = ["deflate"] }
lopdf = "0.34"
pdf-extract = "0.7"
jieba-rs = "0.7"
aes-gcm = "0.10"
argon2 = "0.5"
rand = "0.8"
base64 = "0.22"
url = "2"
rusqlite = { version = "0.32", features = ["bundled"] }
sqlite-vec = "0.1"
reqwest = { version = "0.12", default-features = false, features = ["blocking", "rustls-tls", "stream"] }
notify = "6"
keyring = "3"
chrono = "0.4"
tokio = { version = "1", features = ["rt", "time"] }
futures = "0.3"
serde = { version = "1", features = ["derive"] }
serde_json = "1"
