[package]
name = "radio_sync"
version = "0.1.0"
edition = "2021"
publish = false

[dependencies]
serde_json = "1"
reqwest = { version = "0.12", default-features = false }
tokio = { version = "1", default-features = false, features = ["macros", "rt-multi-thread"] }
rspotify = { version = "0.13", default-features = false, features = ["cli", "client-reqwest", "reqwest-rustls-tls"] }
