[package]
name = "popcorn"
version = "0.1.0"
edition = "2021"
publish = false

[dependencies]
urlencoding = "2"
serde = { version = "1", features = ["derive"] }
serde_json = "1"
m3u8-rs = "*"
url = "2"
librqbit-core = "*"
librqbit-buffers = "*"
mp4 = "*"
roxmltree = "*"
base64 = "*"
reqwest = { version = "*", default-features = false, features = ["json", "rustls-tls"] }
tokio = { version = "1", features = ["full"] }
rusqlite = { version = "*", features = ["bundled"] }
keyring = "*"
uuid = { version = "1", features = ["v4"] }

[dev-dependencies]
librqbit-bencode = "*"
