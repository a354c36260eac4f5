[package]
name = "livecapture"
version = "0.1.0"
edition = "2021"
publish = false

[dependencies]
async-trait = "0.1"
base64 = "0.22"
bytes = "1"
chrono = "0.4"
error-stack = "0.5"
libc = "0.2"
m3u8-rs = "6"
md-5 = "0.10"
nom = "7"
rand = "0.8"
regex = "1"
reqwest = { version = "0.12", default-features = false }
serde_json = "1"
serde_urlencoded = "0.7"
tokio = { version = "1", features = ["fs", "io-util", "macros", "process", "rt", "rt-multi-thread", "sync", "time"] }
tracing = "0.1"
url = "2"
urlencoding = "2"
