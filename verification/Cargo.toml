[package]
name = "cephei"
version = "0.1.0"
edition = "2021"
publish = false

[dependencies]
urlencoding = "=2.1.3"
anyhow = "=1.0.104"
dialoguer = "=0.12.0"
dotenvy = "=0.15.7"
futures-util = "=0.3.34"
grammers-client = { version = "=0.7.0", features = ["proxy"] }
grammers-session = "=0.7.0"
grammers-tl-types = "=0.7.0"
pyo3 = "=0.29.3"
reqwest = { version = "=0.13.5", default-features = false, features = ["json"] }
serde_json = "=1.0.151"
tokio = { version = "=1.53.2", features = ["rt-multi-thread", "macros", "sync", "fs", "io-util"] }
