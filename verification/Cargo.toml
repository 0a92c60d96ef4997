[package]
name = "picarto_vod_downloader"
version = "0.9.0"
edition = "2021"
publish = false

[dependencies]
url = "2"
m3u8-rs = "*"
serde = { version = "1", features = ["derive"] }
serde_json = "1"
reqwest = { version = "0.12", default-features = false, features = ["blocking", "json", "rustls-tls"] }
clap = "4"
indicatif = "*"
rayon = "1"
mktemp = "*"
log = "0.4"
simplelog = "*"
