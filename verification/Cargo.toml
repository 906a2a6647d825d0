[package]
name = "torrent_client"
version = "0.1.0"
edition = "2021"
publish = false

[dependencies]
anyhow = "1"
curl = "0.4"
futures = "0.3"
portpicker = "0.1"
rand = "0.8"
sha1 = "0.10"
tokio = { version = "1", features = ["rt-multi-thread", "macros", "net", "io-util", "time"] }
url = "2"
