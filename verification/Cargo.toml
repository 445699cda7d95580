[package]
name = "manga_downloader"
version = "0.1.0"
edition = "2021"
publish = false

[dependencies]
aes = "0.8"
base64 = "0.22"
md5 = "0.7"
url = "2"
image = { version = "0.25", default-features = false, features = ["jpeg", "png", "webp", "gif"] }
anyhow = "1"
bytes = "1"
reqwest = { version = "0.12", default-features = false, features = ["rustls-tls"] }
serde = { version = "1", features = ["derive"] }
serde_json = "1"
tokio = { version = "1", features = ["rt-multi-thread", "macros", "sync", "time"] }
rayon = "1"
zip = { version = "2", default-features = false }
